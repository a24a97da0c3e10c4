//! Text as sequences of characters: lines, trimming, searching, splitting and
//! joining, and the decimal form of numbers.
use vstd::prelude::*;
use vstd::slice::slice_subrange;

verus! {

/// `String::push` appends one character to the end of the string and leaves
/// the rest of it as it was.
pub assume_specification[ String::push ](s: &mut String, c: char)
    ensures
        final(s)@ == old(s)@.push(c),
;

/// How a character is written for debugging: in quotes, with what cannot be
/// printed escaped.
pub uninterp spec fn char_debug(c: char) -> Seq<char>;

/// The `Debug` form of a character, by `format!` with `{:?}`. It is a function
/// of the character alone; which characters are escaped is left unsaid.
#[verifier::external_body]
pub(crate) fn debug_char(c: char) -> (r: String)
    ensures
        r@ == char_debug(c),
{
    format!("{:?}", c)
}

/// How a text is written for debugging: in quotes, with what cannot be printed
/// escaped.
pub uninterp spec fn text_debug(s: Seq<char>) -> Seq<char>;

/// The `Debug` form of a string, by `format!` with `{:?}`. It is a function of
/// the characters alone; which of them are escaped is left unsaid.
#[verifier::external_body]
pub(crate) fn debug_text(s: &str) -> (r: String)
    ensures
        r@ == text_debug(s@),
{
    format!("{:?}", s)
}

/// The characters with the Unicode property `White_Space`.
pub open spec fn is_space(c: char) -> bool {
    let n = c as u32;
    ||| 0x9 <= n <= 0xd
    ||| n == 0x20
    ||| n == 0x85
    ||| n == 0xa0
    ||| n == 0x1680
    ||| 0x2000 <= n <= 0x200a
    ||| n == 0x2028
    ||| n == 0x2029
    ||| n == 0x202f
    ||| n == 0x205f
    ||| n == 0x3000
}

/// `s` without the white space at its start.
pub open spec fn trimmed_start(s: Seq<char>) -> Seq<char>
    decreases s.len(),
{
    if s.len() > 0 && is_space(s[0]) {
        trimmed_start(s.drop_first())
    } else {
        s
    }
}

/// `s` without the white space at its end.
pub open spec fn trimmed_end(s: Seq<char>) -> Seq<char>
    decreases s.len(),
{
    if s.len() > 0 && is_space(s.last()) {
        trimmed_end(s.drop_last())
    } else {
        s
    }
}

/// `s` without the white space at either end.
pub open spec fn trimmed(s: Seq<char>) -> Seq<char> {
    trimmed_end(trimmed_start(s))
}

/// `s` without the run of `c` at its end.
pub open spec fn without_trailing(s: Seq<char>, c: char) -> Seq<char>
    decreases s.len(),
{
    if s.len() > 0 && s.last() == c {
        without_trailing(s.drop_last(), c)
    } else {
        s
    }
}

/// Whether `s` begins with `p`.
pub open spec fn has_prefix(s: Seq<char>, p: Seq<char>) -> bool {
    p.len() <= s.len() && s.take(p.len() as int) == p
}

/// Whether `p` stands somewhere in `s`.
pub open spec fn has_text(s: Seq<char>, p: Seq<char>) -> bool {
    exists|i: int|
        0 <= i <= s.len() - p.len() && #[trigger] s.subrange(i, i + p.len()) == p
}

/// The first position of `c` at or after `from`, or the length of `s`.
pub open spec fn position(s: Seq<char>, c: char, from: int) -> int
    decreases s.len() - from,
{
    if from >= s.len() {
        s.len() as int
    } else if s[from] == c {
        from
    } else {
        position(s, c, from + 1)
    }
}

/// A position lies between its starting point and the end of the text.
pub proof fn lemma_position_bounds(s: Seq<char>, c: char, from: int)
    requires
        0 <= from <= s.len(),
    ensures
        from <= position(s, c, from) <= s.len(),
    decreases s.len() - from,
{
    if from < s.len() && s[from] != c {
        lemma_position_bounds(s, c, from + 1);
    }
}

/// A line without the carriage return that belongs to its line ending.
pub open spec fn without_return(s: Seq<char>) -> Seq<char> {
    if s.len() > 0 && s.last() == '\r' {
        s.drop_last()
    } else {
        s
    }
}

/// The lines of `s` that begin at or after `from`.
pub open spec fn lines_from(s: Seq<char>, from: int) -> Seq<Seq<char>>
    decreases s.len() - from,
{
    if from < 0 || from >= s.len() {
        seq![]
    } else {
        let end = position(s, '\n', from);
        proof {
            lemma_position_bounds(s, '\n', from);
        }
        if end < s.len() {
            seq![without_return(s.subrange(from, end))] + lines_from(s, end + 1)
        } else {
            seq![s.subrange(from, end)]
        }
    }
}

/// The lines of a text. A line ends at `\n` or `\r\n`, and the last line may
/// go without an ending.
pub open spec fn lines_of(s: Seq<char>) -> Seq<Seq<char>> {
    lines_from(s, 0)
}

/// The first line of a text, empty if there is none.
pub open spec fn first_line_of(s: Seq<char>) -> Seq<char> {
    let lines = lines_of(s);
    if lines.len() > 0 {
        lines[0]
    } else {
        seq![]
    }
}

/// The pieces of `s` between separators, from position `from` on.
pub open spec fn pieces_from(s: Seq<char>, sep: char, from: int) -> Seq<Seq<char>>
    decreases s.len() - from,
{
    if from < 0 || from > s.len() {
        seq![]
    } else {
        let end = position(s, sep, from);
        proof {
            lemma_position_bounds(s, sep, from);
        }
        if end < s.len() {
            seq![s.subrange(from, end)] + pieces_from(s, sep, end + 1)
        } else {
            seq![s.subrange(from, end)]
        }
    }
}

/// The pieces of `s` between separators: one more than there are separators.
pub open spec fn pieces(s: Seq<char>, sep: char) -> Seq<Seq<char>> {
    pieces_from(s, sep, 0)
}

/// What stands after the last separator.
pub open spec fn last_piece(s: Seq<char>, sep: char) -> Seq<char>
    decreases s.len(),
{
    if s.len() == 0 || s.last() == sep {
        seq![]
    } else {
        last_piece(s.drop_last(), sep).push(s.last())
    }
}

/// The texts of `list` with `sep` between each two of them.
pub open spec fn joined(list: Seq<Seq<char>>, sep: Seq<char>) -> Seq<char>
    decreases list.len(),
{
    if list.len() == 0 {
        seq![]
    } else if list.len() == 1 {
        list[0]
    } else {
        joined(list.drop_last(), sep) + sep + list.last()
    }
}

/// The character of a decimal digit.
pub open spec fn digit(d: int) -> char {
    (48 + d) as char
}

/// A number in decimal, without leading zeros.
pub open spec fn decimal(n: nat) -> Seq<char>
    decreases n,
{
    if n < 10 {
        seq![digit(n as int)]
    } else {
        decimal(n / 10).push(digit((n % 10) as int))
    }
}

/// The last `places` decimal digits of a number.
pub open spec fn padded(n: nat, places: nat) -> Seq<char>
    decreases places,
{
    if places == 0 {
        seq![]
    } else {
        padded(n / 10, (places - 1) as nat).push(digit((n % 10) as int))
    }
}

/// The characters of each slice.
pub open spec fn slices(v: Seq<&[char]>) -> Seq<Seq<char>> {
    v.map_values(|s: &[char]| s@)
}

/// The characters of each string.
pub open spec fn texts(v: Seq<String>) -> Seq<Seq<char>> {
    v.map_values(|s: String| s@)
}

/// The characters of an optional string.
pub open spec fn optional(s: Option<String>) -> Option<Seq<char>> {
    match s {
        Some(t) => Some(t@),
        None => None,
    }
}

/// An optional text, or `default` where there is none.
pub open spec fn text_or(s: Option<String>, default: Seq<char>) -> Seq<char> {
    match s {
        Some(t) => t@,
        None => default,
    }
}

/// The characters of a string.
pub fn chars_of(s: &str) -> (v: Vec<char>)
    ensures
        v@ == s@,
{
    let mut v: Vec<char> = Vec::new();
    for c in it: s.chars()
        invariant
            v@ == it.seq().take(it.index()),
            it.seq() == s@,
    {
        v.push(c);
    }
    v
}

/// The string with the given characters.
pub fn string_of(s: &[char]) -> (r: String)
    ensures
        r@ == s@,
{
    let mut r = String::new();
    let mut i: usize = 0;
    while i < s.len()
        invariant
            i <= s.len(),
            r@ == s@.take(i as int),
        decreases s.len() - i,
    {
        r.push(s[i]);
        i = i + 1;
    }
    r
}

/// Whether two strings have the same characters.
pub fn same_text(a: &str, b: &str) -> (r: bool)
    ensures
        r == (a@ == b@),
{
    a.to_owned() == b.to_owned()
}

/// Whether there is a text and it is `b`.
pub fn is_text(a: &Option<String>, b: &str) -> (r: bool)
    ensures
        r == (optional(*a) == Some(b@)),
{
    match a {
        Some(s) => same_text(s.as_str(), b),
        None => false,
    }
}

/// Whether two optional texts are equal.
pub fn same_optional(a: &Option<String>, b: &Option<String>) -> (r: bool)
    ensures
        r == (optional(*a) == optional(*b)),
{
    match (a, b) {
        (Some(x), Some(y)) => same_text(x.as_str(), y.as_str()),
        (None, None) => true,
        _ => false,
    }
}

/// The text, or `default` where there is none.
pub fn or_text<'a>(a: &'a Option<String>, default: &'a str) -> (r: &'a str)
    ensures
        r@ == text_or(*a, default@),
{
    match a {
        Some(s) => s.as_str(),
        None => default,
    }
}

/// Whether two slices hold the same characters.
pub fn same_chars(a: &[char], b: &[char]) -> (r: bool)
    ensures
        r == (a@ == b@),
{
    if a.len() != b.len() {
        return false;
    }
    let mut i: usize = 0;
    while i < a.len()
        invariant
            a.len() == b.len(),
            i <= a.len(),
            forall|k: int| 0 <= k < i ==> a@[k] == b@[k],
        decreases a.len() - i,
    {
        if a[i] != b[i] {
            assert(a@[i as int] != b@[i as int]);
            return false;
        }
        i = i + 1;
    }
    assert(a@ =~= b@);
    true
}

/// Whether the slice holds the characters of `b`.
pub fn is_literal(a: &[char], b: &str) -> (r: bool)
    ensures
        r == (a@ == b@),
{
    let chars = chars_of(b);
    same_chars(a, chars.as_slice())
}

/// Whether `c` is white space.
pub fn space(c: char) -> (r: bool)
    ensures
        r == is_space(c),
{
    let n = c as u32;
    (0x9 <= n && n <= 0xd) || n == 0x20 || n == 0x85 || n == 0xa0 || n == 0x1680 || (0x2000 <= n
        && n <= 0x200a) || n == 0x2028 || n == 0x2029 || n == 0x202f || n == 0x205f || n == 0x3000
}

/// The slice without the white space at either end.
pub fn trim(s: &[char]) -> (r: &[char])
    ensures
        r@ == trimmed(s@),
{
    let mut from: usize = 0;
    assert(s@.skip(0) == s@);
    while from < s.len() && space(s[from])
        invariant
            from <= s.len(),
            trimmed_start(s@) == trimmed_start(s@.skip(from as int)),
        decreases s.len() - from,
    {
        assert(s@.skip(from as int).drop_first() == s@.skip(from + 1));
        from = from + 1;
    }
    let ghost start = s@.skip(from as int);
    assert(trimmed_start(s@) == start);
    let mut to: usize = s.len();
    assert(s@.subrange(from as int, to as int) == start);
    while to > from && space(s[to - 1])
        invariant
            from <= to <= s.len(),
            trimmed_end(start) == trimmed_end(s@.subrange(from as int, to as int)),
        decreases to,
    {
        assert(s@.subrange(from as int, to as int).drop_last() == s@.subrange(
            from as int,
            to - 1,
        ));
        to = to - 1;
    }
    slice_subrange(s, from, to)
}

/// The slice without the run of `c` at its end.
pub fn trim_end_matches(s: &[char], c: char) -> (r: &[char])
    ensures
        r@ == without_trailing(s@, c),
{
    let mut to: usize = s.len();
    assert(s@.take(to as int) == s@);
    while to > 0 && s[to - 1] == c
        invariant
            to <= s.len(),
            without_trailing(s@, c) == without_trailing(s@.take(to as int), c),
        decreases to,
    {
        assert(s@.take(to as int).drop_last() == s@.take(to - 1));
        to = to - 1;
    }
    slice_subrange(s, 0, to)
}

/// Whether the characters of `p` stand in `s` at position `at`.
fn stands_at(s: &[char], p: &[char], at: usize) -> (r: bool)
    requires
        at + p.len() <= s.len(),
    ensures
        r == (s@.subrange(at as int, at + p.len()) == p@),
{
    same_chars(slice_subrange(s, at, at + p.len()), p)
}

/// Whether the slice begins with `p`.
pub fn starts_with(s: &[char], p: &str) -> (r: bool)
    ensures
        r == has_prefix(s@, p@),
{
    let chars = chars_of(p);
    if chars.len() > s.len() {
        return false;
    }
    stands_at(s, chars.as_slice(), 0)
}

/// What follows `p`, where the slice begins with it.
pub fn strip_prefix<'a>(s: &'a [char], p: &str) -> (r: Option<&'a [char]>)
    ensures
        r is Some <==> has_prefix(s@, p@),
        r matches Some(rest) ==> rest@ == s@.skip(p@.len() as int),
{
    if starts_with(s, p) {
        Some(slice_subrange(s, p.unicode_len(), s.len()))
    } else {
        None
    }
}

/// Whether `p` stands somewhere in the slice.
pub fn contains(s: &[char], p: &str) -> (r: bool)
    ensures
        r == has_text(s@, p@),
{
    let chars = chars_of(p);
    if chars.len() > s.len() {
        return false;
    }
    let last: usize = s.len() - chars.len();
    let mut i: usize = 0;
    while i <= last
        invariant
            chars@ == p@,
            last == s.len() - chars.len(),
            i <= last + 1,
            forall|k: int| 0 <= k < i ==> #[trigger] s@.subrange(k, k + p@.len()) != p@,
        decreases last + 1 - i,
    {
        if stands_at(s, chars.as_slice(), i) {
            return true;
        }
        if i == last {
            return false;
        }
        i = i + 1;
    }
    false
}

/// The first position of `c` at or after `from`, or the length of the slice.
pub fn find(s: &[char], c: char, from: usize) -> (r: usize)
    requires
        from <= s.len(),
    ensures
        r == position(s@, c, from as int),
        from <= r <= s.len(),
{
    let mut i: usize = from;
    while i < s.len() && s[i] != c
        invariant
            from <= i <= s.len(),
            position(s@, c, from as int) == position(s@, c, i as int),
        decreases s.len() - i,
    {
        i = i + 1;
    }
    i
}

/// The lines of the slice.
pub fn lines(s: &[char]) -> (r: Vec<&[char]>)
    ensures
        slices(r@) == lines_of(s@),
{
    let mut r: Vec<&[char]> = Vec::new();
    let mut from: usize = 0;
    assert(slices(r@) + lines_from(s@, 0) == lines_of(s@));
    while from < s.len()
        invariant
            from <= s.len(),
            slices(r@) + lines_from(s@, from as int) == lines_of(s@),
        decreases s.len() - from,
    {
        let ghost before = slices(r@);
        let end = find(s, '\n', from);
        if end < s.len() {
            let to: usize = if end > from && s[end - 1] == '\r' {
                end - 1
            } else {
                end
            };
            let line = slice_subrange(s, from, to);
            assert(line@ == without_return(s@.subrange(from as int, end as int)));
            r.push(line);
            assert(slices(r@) == before.push(line@));
            assert(before + (seq![line@] + lines_from(s@, end + 1)) == before.push(line@)
                + lines_from(s@, end + 1));
            from = end + 1;
        } else {
            let line = slice_subrange(s, from, end);
            r.push(line);
            assert(slices(r@) == before.push(line@));
            assert(before + seq![line@] == before.push(line@) + lines_from(s@, end as int));
            from = end;
        }
    }
    assert(slices(r@) + lines_from(s@, from as int) == slices(r@));
    r
}

/// The first line of the slice, empty if there is none.
pub fn first_line(s: &[char]) -> (r: &[char])
    ensures
        r@ == first_line_of(s@),
{
    let all = lines(s);
    if all.len() > 0 {
        assert(slices(all@)[0] == all@[0]@);
        all[0]
    } else {
        slice_subrange(s, 0, 0)
    }
}

/// The pieces of the slice between separators.
pub fn split(s: &[char], sep: char) -> (r: Vec<&[char]>)
    ensures
        slices(r@) == pieces(s@, sep),
{
    let mut r: Vec<&[char]> = Vec::new();
    let mut from: usize = 0;
    assert(slices(r@) + pieces_from(s@, sep, 0) == pieces(s@, sep));
    loop
        invariant
            from <= s.len(),
            slices(r@) + pieces_from(s@, sep, from as int) == pieces(s@, sep),
        decreases s.len() - from,
    {
        let ghost before = slices(r@);
        let end = find(s, sep, from);
        let piece = slice_subrange(s, from, end);
        r.push(piece);
        assert(slices(r@) == before.push(piece@));
        if end == s.len() {
            assert(before + seq![piece@] == before.push(piece@));
            return r;
        }
        assert(before + (seq![piece@] + pieces_from(s@, sep, end + 1)) == before.push(piece@)
            + pieces_from(s@, sep, end + 1));
        from = end + 1;
    }
}

/// What stands after the last separator.
pub fn after_last(s: &[char], sep: char) -> (r: &[char])
    ensures
        r@ == last_piece(s@, sep),
{
    let mut from: usize = s.len();
    assert(s@.take(from as int) == s@);
    assert(s@.skip(from as int) == Seq::<char>::empty());
    while from > 0 && s[from - 1] != sep
        invariant
            from <= s.len(),
            last_piece(s@, sep) == last_piece(s@.take(from as int), sep) + s@.skip(from as int),
        decreases from,
    {
        assert(s@.take(from as int).drop_last() == s@.take(from - 1));
        assert(last_piece(s@.take(from - 1), sep).push(s@[from - 1]) + s@.skip(from as int)
            == last_piece(s@.take(from - 1), sep) + s@.skip(from - 1));
        from = from - 1;
    }
    assert(last_piece(s@.take(from as int), sep) == Seq::<char>::empty());
    assert(Seq::<char>::empty() + s@.skip(from as int) == s@.skip(from as int));
    slice_subrange(s, from, s.len())
}

/// The strings with `sep` between each two of them.
pub fn join(list: &[String], sep: &str) -> (r: String)
    ensures
        r@ == joined(texts(list@), sep@),
{
    let mut r = String::new();
    let mut i: usize = 0;
    while i < list.len()
        invariant
            i <= list.len(),
            r@ == joined(texts(list@).take(i as int), sep@),
        decreases list.len() - i,
    {
        if i > 0 {
            r.append(sep);
        }
        r.append(list[i].as_str());
        assert(texts(list@).take(i + 1).drop_last() == texts(list@).take(i as int));
        if i == 0 {
            assert(r@ == texts(list@)[0]);
        }
        i = i + 1;
    }
    assert(texts(list@).take(i as int) == texts(list@));
    r
}

/// Adds a string to the end of the list.
pub fn add_text(list: &mut Vec<String>, s: String)
    ensures
        texts(final(list)@) == texts(old(list)@).push(s@),
{
    list.push(s);
    assert(texts(list@) =~= texts(old(list)@).push(s@));
}

/// Appends a number in decimal.
fn append_decimal(out: &mut String, n: u128)
    ensures
        final(out)@ == old(out)@ + decimal(n as nat),
    decreases n,
{
    if n >= 10 {
        append_decimal(out, n / 10);
    }
    let d: u8 = (n % 10) as u8;
    let c = (48 + d) as char;
    assert(c == digit((n % 10) as int));
    let ghost before = out@;
    out.push(c);
    assert(out@ =~= old(out)@ + decimal(n as nat));
}

/// A number in decimal.
pub fn number(n: u128) -> (r: String)
    ensures
        r@ == decimal(n as nat),
{
    let mut r = String::new();
    append_decimal(&mut r, n);
    assert(r@ =~= decimal(n as nat));
    r
}

/// Appends the last `places` decimal digits of a number.
fn append_padded(out: &mut String, n: u128, places: u32)
    ensures
        final(out)@ == old(out)@ + padded(n as nat, places as nat),
    decreases places,
{
    if places > 0 {
        append_padded(out, n / 10, places - 1);
        let d: u8 = (n % 10) as u8;
        let c = (48 + d) as char;
        assert(c == digit((n % 10) as int));
        out.push(c);
        assert(out@ =~= old(out)@ + padded(n as nat, places as nat));
    } else {
        assert(out@ =~= old(out)@ + padded(n as nat, places as nat));
    }
}

/// The last `places` decimal digits of a number.
pub fn digits(n: u128, places: u32) -> (r: String)
    ensures
        r@ == padded(n as nat, places as nat),
{
    let mut r = String::new();
    append_padded(&mut r, n, places);
    assert(r@ =~= padded(n as nat, places as nat));
    r
}

} // verus!
