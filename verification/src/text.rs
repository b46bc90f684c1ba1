//! Text helpers: comparison, prefixes, decimal digits, padding, and number parsing.

use vstd::prelude::*;
use vstd::string::*;

verus! {

/// Appends a character; std's `String::push` does that and nothing else.
pub assume_specification[ String::push ](s: &mut String, c: char)
    ensures
        final(s)@ == old(s)@.push(c),
;

/// What `{:?}` writes for a text: the text in double quotes, with escapes.
pub uninterp spec fn debug_quoted(s: Seq<char>) -> Seq<char>;

/// Calls std's `Debug` for `str`. The claim: the result depends on the text alone.
#[verifier::external_body]
pub(crate) fn quoted(s: &str) -> (r: String)
    ensures
        r@ == debug_quoted(s@),
{
    format!("{:?}", s)
}

/// Calls std's `Display` for `u64`: the decimal digits, without leading zeros.
#[verifier::external_body]
fn u64_to_string(n: u64) -> (r: String)
    ensures
        r@ == digits(n as nat),
{
    n.to_string()
}

/// The digit `d` as a character.
pub open spec fn digit_char(d: int) -> char {
    if d == 0 {
        '0'
    } else if d == 1 {
        '1'
    } else if d == 2 {
        '2'
    } else if d == 3 {
        '3'
    } else if d == 4 {
        '4'
    } else if d == 5 {
        '5'
    } else if d == 6 {
        '6'
    } else if d == 7 {
        '7'
    } else if d == 8 {
        '8'
    } else {
        '9'
    }
}

/// The decimal digits of a number.
pub open spec fn digits(n: nat) -> Seq<char>
    decreases n,
{
    if n < 10 {
        seq![digit_char(n as int)]
    } else {
        digits(n / 10).push(digit_char((n % 10) as int))
    }
}

/// The last `width` decimal digits of a number, with leading zeros.
pub open spec fn fixed_digits(n: nat, width: nat) -> Seq<char>
    decreases width,
{
    if width == 0 {
        seq![]
    } else {
        fixed_digits(n / 10, (width - 1) as nat).push(digit_char((n % 10) as int))
    }
}

/// A signed number in decimal digits.
pub open spec fn signed_digits(n: int) -> Seq<char> {
    if n < 0 {
        seq!['-'] + digits((-n) as nat)
    } else {
        digits(n as nat)
    }
}

/// `n` copies of a character.
pub open spec fn repeated(c: char, n: nat) -> Seq<char> {
    Seq::new(n, |i: int| c)
}

/// A text padded on the left with `c` to at least `width` characters.
pub open spec fn padded_left(s: Seq<char>, width: nat, c: char) -> Seq<char> {
    if s.len() >= width {
        s
    } else {
        repeated(c, (width - s.len()) as nat) + s
    }
}

/// A text padded on the right with spaces to at least `width` characters.
pub open spec fn padded_right(s: Seq<char>, width: nat) -> Seq<char> {
    if s.len() >= width {
        s
    } else {
        s + repeated(' ', (width - s.len()) as nat)
    }
}

/// Whether a text begins with another.
pub open spec fn begins_with(s: Seq<char>, prefix: Seq<char>) -> bool {
    prefix.len() <= s.len() && s.subrange(0, prefix.len() as int) == prefix
}

/// What follows a prefix.
pub open spec fn after_prefix(s: Seq<char>, prefix: Seq<char>) -> Seq<char> {
    s.subrange(prefix.len() as int, s.len() as int)
}

/// Whether a character is an ASCII digit.
pub open spec fn is_digit(c: char) -> bool {
    '0' <= c && c <= '9'
}

/// Whether every character is an ASCII digit.
pub open spec fn all_digits(s: Seq<char>) -> bool {
    forall|i: int| 0 <= i < s.len() ==> is_digit(#[trigger] s[i])
}

/// The number that decimal digits stand for.
pub open spec fn number_of(s: Seq<char>) -> nat
    decreases s.len(),
{
    if s.len() == 0 {
        0
    } else {
        number_of(s.drop_last()) * 10 + (s.last() as nat - '0' as nat) as nat
    }
}

/// A text without the one plus sign that an unsigned number may begin with.
pub open spec fn without_plus(s: Seq<char>) -> Seq<char> {
    if s.len() > 0 && s[0] == '+' {
        s.subrange(1, s.len() as int)
    } else {
        s
    }
}

/// The unsigned number that a text stands for, up to a largest one: decimal digits, at least
/// one of them, after an optional plus sign.
pub open spec fn parsed_unsigned(s: Seq<char>, max: nat) -> Option<nat> {
    let body = without_plus(s);
    if body.len() > 0 && all_digits(body) && number_of(body) <= max {
        Some(number_of(body))
    } else {
        None
    }
}

/// The digits of a number are digits, at least one, and stand for it.
proof fn lemma_digits(n: nat)
    ensures
        all_digits(digits(n)),
        digits(n).len() > 0,
        number_of(digits(n)) == n,
    decreases n,
{
    if n < 10 {
        let s = digits(n);
        assert(s.drop_last() =~= Seq::empty());
        assert(number_of(s.drop_last()) == 0);
    } else {
        lemma_digits(n / 10);
        assert(digits(n).drop_last() =~= digits(n / 10));
    }
}

/// Leading zeros change no number.
proof fn lemma_leading_zeros(k: nat, s: Seq<char>)
    requires
        all_digits(s),
    ensures
        all_digits(repeated('0', k) + s),
        number_of(repeated('0', k) + s) == number_of(s),
    decreases k + s.len(),
{
    let t = repeated('0', k) + s;
    assert forall|i: int| 0 <= i < t.len() implies is_digit(#[trigger] t[i]) by {
        if i >= k {
            assert(t[i] == s[i - k]);
        }
    }
    if s.len() > 0 {
        assert(t.drop_last() =~= repeated('0', k) + s.drop_last());
        assert(all_digits(s.drop_last())) by {
            assert forall|i: int| 0 <= i < s.drop_last().len() implies is_digit(
                #[trigger] s.drop_last()[i],
            ) by {
                assert(s.drop_last()[i] == s[i]);
            }
        }
        lemma_leading_zeros(k, s.drop_last());
    } else if k > 0 {
        assert(t.drop_last() =~= repeated('0', (k - 1) as nat) + s);
        lemma_leading_zeros((k - 1) as nat, s);
    }
}

/// A number written in digits, zeros in front of it or not, is read back as that number.
pub proof fn law_written_number_is_read_back(n: nat, width: nat, max: nat)
    requires
        n <= max,
    ensures
        parsed_unsigned(padded_left(digits(n), width, '0'), max) == Some(n),
        all_digits(padded_left(digits(n), width, '0')),
{
    lemma_digits(n);
    let s = padded_left(digits(n), width, '0');
    if digits(n).len() < width {
        lemma_leading_zeros((width - digits(n).len()) as nat, digits(n));
    }
    assert(is_digit(s[0]));
}

/// Appending digits never makes the number smaller.
proof fn lemma_number_grows(s: Seq<char>, k: int)
    requires
        all_digits(s),
        0 <= k <= s.len(),
    ensures
        number_of(s.subrange(0, k)) <= number_of(s),
    decreases s.len() - k,
{
    if k < s.len() {
        lemma_number_grows(s, k + 1);
        let t = s.subrange(0, k + 1);
        assert(t.drop_last() =~= s.subrange(0, k));
        assert(is_digit(s[k]));
    } else {
        assert(s.subrange(0, k) =~= s);
    }
}

/// Whether two texts are equal.
pub fn same(a: &str, b: &str) -> (r: bool)
    ensures
        r == (a@ == b@),
{
    a.to_owned() == b.to_owned()
}

/// Whether a text begins with another.
pub fn starts_with(s: &str, prefix: &str) -> (r: bool)
    ensures
        r == begins_with(s@, prefix@),
{
    let n: usize = prefix.unicode_len();
    if n > s.unicode_len() {
        return false;
    }
    same(s.substring_char(0, n), prefix)
}

/// What follows a prefix, or `None` where the text does not begin with it.
pub fn strip_prefix(s: &str, prefix: &str) -> (r: Option<String>)
    ensures
        begins_with(s@, prefix@) ==> r is Some && r->0@ == after_prefix(s@, prefix@),
        !begins_with(s@, prefix@) ==> r is None,
{
    if starts_with(s, prefix) {
        let n: usize = prefix.unicode_len();
        let all: usize = s.unicode_len();
        Some(s.substring_char(n, all).to_owned())
    } else {
        None
    }
}

/// Two texts laid end to end.
pub fn join2(a: &str, b: &str) -> (r: String)
    ensures
        r@ == a@ + b@,
{
    let mut r = a.to_owned();
    r.append(b);
    r
}

/// Three texts laid end to end.
pub fn join3(a: &str, b: &str, c: &str) -> (r: String)
    ensures
        r@ == a@ + b@ + c@,
{
    let mut r = a.to_owned();
    r.append(b);
    r.append(c);
    r
}

/// Five texts laid end to end.
pub fn join5(a: &str, b: &str, c: &str, d: &str, e: &str) -> (r: String)
    ensures
        r@ == a@ + b@ + c@ + d@ + e@,
{
    let mut r = join3(a, b, c);
    r.append(d);
    r.append(e);
    r
}

/// A number in decimal digits.
pub fn u64_text(n: u64) -> (r: String)
    ensures
        r@ == digits(n as nat),
{
    u64_to_string(n)
}

/// A signed number in decimal digits.
pub fn i64_text(n: i64) -> (r: String)
    ensures
        r@ == signed_digits(n as int),
{
    if n < 0 {
        let magnitude: u64 = (-(n as i128)) as u64;
        let mut r = String::new();
        r.push('-');
        r.append(u64_to_string(magnitude).as_str());
        assert(r@ =~= signed_digits(n as int));
        r
    } else {
        u64_to_string(n as u64)
    }
}

/// Appends `n` copies of a character.
fn push_repeated(s: &mut String, c: char, n: usize)
    ensures
        final(s)@ == old(s)@ + repeated(c, n as nat),
{
    let ghost before = s@;
    let mut i: usize = 0;
    while i < n
        invariant
            i <= n,
            s@ == before + repeated(c, i as nat),
        decreases n - i,
    {
        s.push(c);
        i = i + 1;
        assert(s@ =~= before + repeated(c, i as nat));
    }
}

/// A text padded on the left with `c` to at least `width` characters.
pub fn pad_left(s: &str, width: usize, c: char) -> (r: String)
    ensures
        r@ == padded_left(s@, width as nat, c),
{
    let n: usize = s.unicode_len();
    let mut r = String::new();
    if n < width {
        push_repeated(&mut r, c, width - n);
    }
    r.append(s);
    assert(r@ =~= padded_left(s@, width as nat, c));
    r
}

/// A text padded on the right with spaces to at least `width` characters.
pub fn pad_right(s: &str, width: usize) -> (r: String)
    ensures
        r@ == padded_right(s@, width as nat),
{
    let n: usize = s.unicode_len();
    let mut r = s.to_owned();
    if n < width {
        push_repeated(&mut r, ' ', width - n);
    }
    r
}

/// The value of an ASCII digit.
fn digit_value(c: char) -> (r: u64)
    requires
        is_digit(c),
    ensures
        r == c as nat - '0' as nat,
        r <= 9,
{
    (c as u32 - '0' as u32) as u64
}

/// Parses an unsigned number up to `max`.
pub fn parse_unsigned(s: &str, max: u64) -> (r: Option<u64>)
    ensures
        parsed_unsigned(s@, max as nat) is Some <==> r is Some,
        r matches Some(n) ==> parsed_unsigned(s@, max as nat) == Some(n as nat),
{
    let n: usize = s.unicode_len();
    let start: usize = if n > 0 && s.get_char(0) == '+' {
        1
    } else {
        0
    };
    let ghost body = without_plus(s@);
    assert(body =~= s@.subrange(start as int, n as int));
    if start == n {
        return None;
    }
    let mut total: u64 = 0;
    let mut i: usize = start;
    while i < n
        invariant
            start <= i <= n,
            n == s@.len(),
            start < n,
            body == s@.subrange(start as int, n as int),
            body == without_plus(s@),
            all_digits(body.subrange(0, i - start)),
            total == number_of(body.subrange(0, i - start)),
            total <= max,
        decreases n - i,
    {
        let c = s.get_char(i);
        assert(body[i - start] == c);
        if !(c >= '0' && c <= '9') {
            return None;
        }
        let ghost next = body.subrange(0, i - start + 1);
        assert(next.drop_last() =~= body.subrange(0, i - start));
        let d: u64 = digit_value(c);
        let wide: u128 = total as u128 * 10 + d as u128;
        assert(wide == number_of(next));
        if wide > max as u128 {
            proof {
                if all_digits(body) {
                    lemma_number_grows(body, i - start + 1);
                }
            }
            return None;
        }
        total = wide as u64;
        i = i + 1;
    }
    assert(body.subrange(0, n - start) =~= body);
    Some(total)
}

/// A text without the slashes at its end.
pub open spec fn without_end_slashes(s: Seq<char>) -> Seq<char>
    decreases s.len(),
{
    if s.len() > 0 && s.last() == '/' {
        without_end_slashes(s.drop_last())
    } else {
        s
    }
}

/// A text without the slashes at its end.
pub fn trim_end_slashes(s: &str) -> (r: String)
    ensures
        r@ == without_end_slashes(s@),
{
    let all: usize = s.unicode_len();
    let mut n: usize = all;
    assert(s@.subrange(0, all as int) =~= s@);
    while n > 0 && s.get_char(n - 1) == '/'
        invariant
            n <= all,
            all == s@.len(),
            without_end_slashes(s@.subrange(0, n as int)) == without_end_slashes(s@),
        decreases n,
    {
        assert(s@.subrange(0, n as int).drop_last() =~= s@.subrange(0, n - 1));
        n = n - 1;
    }
    s.substring_char(0, n).to_owned()
}

/// An address without slashes at its end ends in none.
pub proof fn law_trimmed_ends_in_no_slash(s: Seq<char>)
    ensures
        without_end_slashes(s).len() > 0 ==> without_end_slashes(s).last() != '/',
        without_end_slashes(without_end_slashes(s)) == without_end_slashes(s),
    decreases s.len(),
{
    if s.len() > 0 && s.last() == '/' {
        law_trimmed_ends_in_no_slash(s.drop_last());
    }
}

/// The texts of some strings.
pub open spec fn views(parts: Seq<String>) -> Seq<Seq<char>> {
    parts.map_values(|p: String| p@)
}

/// The parts of a text between its separators.
pub open spec fn parts_of(s: Seq<char>, separator: char) -> Seq<Seq<char>>
    decreases s.len(),
{
    if s.len() == 0 {
        seq![Seq::empty()]
    } else {
        let before = parts_of(s.drop_last(), separator);
        if s.last() == separator {
            before.push(Seq::empty())
        } else {
            before.drop_last().push(before.last().push(s.last()))
        }
    }
}

/// A text without separators is its only part.
proof fn lemma_one_part(s: Seq<char>, separator: char)
    requires
        !s.contains(separator),
    ensures
        parts_of(s, separator) == seq![s],
    decreases s.len(),
{
    if s.len() > 0 {
        let rest = s.drop_last();
        assert(!rest.contains(separator)) by {
            if rest.contains(separator) {
                let i = choose|i: int| 0 <= i < rest.len() && rest[i] == separator;
                assert(s[i] == separator);
            }
        }
        lemma_one_part(rest, separator);
        assert(s.last() != separator);
        assert(rest.push(s.last()) =~= s);
        assert(parts_of(s, separator) =~= seq![s]);
    } else {
        assert(s =~= Seq::empty());
    }
}

/// A text without separators in front of one is the first part; the others are those of what
/// follows.
pub proof fn law_parts_are_read_back(first: Seq<char>, rest: Seq<char>, separator: char)
    requires
        !first.contains(separator),
    ensures
        parts_of(first, separator) == seq![first],
        parts_of(first.push(separator) + rest, separator) == seq![first] + parts_of(
            rest,
            separator,
        ),
    decreases rest.len(),
{
    lemma_one_part(first, separator);
    let s = first.push(separator) + rest;
    let head: Seq<Seq<char>> = seq![first];
    if rest.len() == 0 {
        assert(s.drop_last() =~= first);
        assert(s.last() == separator);
        assert(parts_of(s, separator) =~= head + parts_of(rest, separator));
    } else {
        law_parts_are_read_back(first, rest.drop_last(), separator);
        assert(s.drop_last() =~= first.push(separator) + rest.drop_last());
        let p = parts_of(rest.drop_last(), separator);
        lemma_some_part(rest.drop_last(), separator);
        assert((head + p).drop_last() =~= head + p.drop_last());
        assert(parts_of(s, separator) =~= head + parts_of(rest, separator));
    }
}

/// Every text has a part.
proof fn lemma_some_part(s: Seq<char>, separator: char)
    ensures
        parts_of(s, separator).len() > 0,
    decreases s.len(),
{
    if s.len() > 0 {
        lemma_some_part(s.drop_last(), separator);
    }
}

/// The parts of a text between its separators.
pub fn split(s: &str, separator: char) -> (r: Vec<String>)
    ensures
        views(r@) == parts_of(s@, separator),
{
    let n: usize = s.unicode_len();
    let mut done: Vec<String> = Vec::new();
    let mut current = String::new();
    let mut i: usize = 0;
    assert(s@.subrange(0, 0) =~= Seq::empty());
    assert(views(done@).push(current@) =~= parts_of(s@.subrange(0, 0), separator));
    while i < n
        invariant
            i <= n,
            n == s@.len(),
            views(done@).push(current@) == parts_of(s@.subrange(0, i as int), separator),
        decreases n - i,
    {
        let c = s.get_char(i);
        let ghost before = views(done@).push(current@);
        proof {
            let part = s@.subrange(0, i + 1);
            assert(part.drop_last() =~= s@.subrange(0, i as int));
            assert(part.last() == c);
        }
        if c == separator {
            done.push(current);
            current = String::new();
            assert(views(done@) =~= before);
            assert(views(done@).push(current@) =~= before.push(Seq::empty()));
        } else {
            let ghost sofar = current@;
            current.push(c);
            assert(views(done@).push(current@) =~= before.drop_last().push(before.last().push(c)));
        }
        i = i + 1;
    }
    assert(s@.subrange(0, i as int) =~= s@);
    let ghost goal = views(done@).push(current@);
    done.push(current);
    assert(views(done@) =~= goal);
    done
}

/// Whether a text comes before another, character by character.
pub open spec fn text_before(a: Seq<char>, b: Seq<char>) -> bool
    decreases b.len(),
{
    if b.len() == 0 {
        false
    } else if a.len() == 0 {
        true
    } else if a[0] == b[0] {
        text_before(a.drop_first(), b.drop_first())
    } else {
        (a[0] as int) < (b[0] as int)
    }
}

/// Of two different texts one comes before the other, and not the other way round.
pub proof fn lemma_text_order(a: Seq<char>, b: Seq<char>)
    ensures
        a == b <==> !text_before(a, b) && !text_before(b, a),
        !(text_before(a, b) && text_before(b, a)),
    decreases b.len(),
{
    if a.len() > 0 && b.len() > 0 {
        if a[0] == b[0] {
            let x = a.drop_first();
            let y = b.drop_first();
            lemma_text_order(x, y);
            assert(text_before(a, b) == text_before(x, y));
            assert(text_before(b, a) == text_before(y, x));
            assert(a =~= seq![a[0]] + x);
            assert(b =~= seq![b[0]] + y);
            assert(x == y ==> a == b);
        } else {
            assert(a[0] as int != b[0] as int);
        }
    } else if a.len() == 0 && b.len() == 0 {
        assert(a =~= b);
    }
}

/// The order of texts carries over.
pub proof fn lemma_text_order_carries(a: Seq<char>, b: Seq<char>, c: Seq<char>)
    requires
        text_before(a, b),
        text_before(b, c),
    ensures
        text_before(a, c),
    decreases c.len(),
{
    if a.len() > 0 && a[0] == b[0] && b[0] == c[0] {
        lemma_text_order_carries(a.drop_first(), b.drop_first(), c.drop_first());
    }
}

/// Whether a text comes before another.
pub fn comes_before(a: &str, b: &str) -> (r: bool)
    ensures
        r == text_before(a@, b@),
{
    let n: usize = a.unicode_len();
    let m: usize = b.unicode_len();
    let mut i: usize = 0;
    assert(a@.subrange(0, n as int) =~= a@);
    assert(b@.subrange(0, m as int) =~= b@);
    while i < n && i < m
        invariant
            n == a@.len(),
            m == b@.len(),
            i <= n,
            i <= m,
            text_before(a@, b@) == text_before(
                a@.subrange(i as int, n as int),
                b@.subrange(i as int, m as int),
            ),
        decreases n - i,
    {
        let c = a.get_char(i);
        let d = b.get_char(i);
        let ghost rest_a = a@.subrange(i as int, n as int);
        let ghost rest_b = b@.subrange(i as int, m as int);
        assert(rest_a[0] == c && rest_b[0] == d);
        assert(rest_a.drop_first() =~= a@.subrange(i + 1, n as int));
        assert(rest_b.drop_first() =~= b@.subrange(i + 1, m as int));
        if c != d {
            return (c as u32) < (d as u32);
        }
        i = i + 1;
    }
    i < m
}

/// A padded text is as wide as asked for, or as it is where that is wider; it keeps to its side,
/// and what is added is the padding alone.
pub proof fn law_padding_keeps_the_text(s: Seq<char>, width: nat, c: char, i: int)
    ensures
        padded_left(s, width, c).len() == padded_right(s, width).len(),
        padded_left(s, width, c).len() >= s.len() && padded_left(s, width, c).len() >= width,
        padded_left(s, width, c).len() == s.len() || padded_left(s, width, c).len() == width,
        padded_right(s, width).subrange(0, s.len() as int) == s,
        padded_left(s, width, c).subrange(
            padded_left(s, width, c).len() - s.len(),
            padded_left(s, width, c).len() as int,
        ) == s,
        0 <= i < padded_left(s, width, c).len() - s.len() ==> padded_left(s, width, c)[i] == c,
        s.len() <= i < padded_right(s, width).len() ==> padded_right(s, width)[i] == ' ',
{
    assert(padded_right(s, width).subrange(0, s.len() as int) == s);
    let left = padded_left(s, width, c);
    assert(left.subrange(left.len() - s.len(), left.len() as int) == s);
}

/// Only slashes go from the end of a trimmed text, and nothing from its front.
pub proof fn law_only_slashes_are_trimmed(s: Seq<char>, i: int)
    ensures
        without_end_slashes(s).len() <= s.len(),
        s.subrange(0, without_end_slashes(s).len() as int) == without_end_slashes(s),
        without_end_slashes(s).len() <= i < s.len() ==> s[i] == '/',
    decreases s.len(),
{
    if s.len() > 0 && s.last() == '/' {
        law_only_slashes_are_trimmed(s.drop_last(), i);
        let kept = without_end_slashes(s);
        assert(s.subrange(0, kept.len() as int) == s.drop_last().subrange(0, kept.len() as int));
    } else {
        assert(s.subrange(0, s.len() as int) == s);
    }
}

/// A negative number is its opposite behind a minus sign.
pub proof fn law_minus_stands_before_the_digits(n: nat)
    ensures
        signed_digits(n as int) == digits(n),
        n > 0 ==> signed_digits(-(n as int)) == seq!['-'] + digits(n),
{
}

/// A number is read with or without a plus sign, and where it is made of digits alone and not too
/// large.
pub proof fn law_plus_sign_makes_no_difference(s: Seq<char>, max: nat)
    requires
        s.len() > 0,
        s[0] != '+',
    ensures
        parsed_unsigned(seq!['+'] + s, max) == parsed_unsigned(s, max),
        parsed_unsigned(s, max) is Some <==> all_digits(s) && number_of(s) <= max,
{
    let signed = seq!['+'] + s;
    assert(signed.subrange(1, signed.len() as int) == s);
}

} // verus!
