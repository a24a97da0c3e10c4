//! Laws of texts: what is cut off, where texts are cut apart, and how they are
//! put together again.
use crate::attributes::{attributes, attributes_from, item_end, lookup};
use crate::double::power_of_ten;
use crate::numeral::{all_digits, digits_value, is_digit};
use crate::text::{
    decimal, digit, first_line_of, has_prefix, has_text, is_space, joined, last_piece, lines_from,
    lines_of, padded, pieces, pieces_from, position, trimmed, trimmed_end, trimmed_start,
    without_trailing,
};
use vstd::arithmetic::div_mod::{lemma_fundamental_div_mod, lemma_mod_breakdown};
use vstd::prelude::*;

verus! {

/// A text begins with another exactly when it is that text and something more.
pub proof fn law_prefix(s: Seq<char>, p: Seq<char>)
    ensures
        has_prefix(s, p) <==> exists|rest: Seq<char>| s == #[trigger] (p + rest),
{
    if has_prefix(s, p) {
        assert(s =~= p + s.skip(p.len() as int));
    }
    if exists|rest: Seq<char>| s == #[trigger] (p + rest) {
        let rest = choose|rest: Seq<char>| s == #[trigger] (p + rest);
        assert((p + rest).take(p.len() as int) =~= p);
    }
}

/// A text stands in another exactly when that is something, the text, and
/// something more.
pub proof fn law_text(s: Seq<char>, p: Seq<char>)
    ensures
        has_text(s, p) <==> exists|a: Seq<char>, b: Seq<char>| s == #[trigger] (a + p + b),
{
    if has_text(s, p) {
        let i = choose|i: int|
            0 <= i <= s.len() - p.len() && #[trigger] s.subrange(i, i + p.len()) == p;
        assert(s =~= s.take(i) + p + s.skip(i + p.len()));
    }
    if exists|a: Seq<char>, b: Seq<char>| s == #[trigger] (a + p + b) {
        let (a, b) = choose|a: Seq<char>, b: Seq<char>| s == #[trigger] (a + p + b);
        let i = a.len() as int;
        assert(s.subrange(i, i + p.len()) =~= p);
    }
}

/// The characters that are white space.
pub open spec fn spaces() -> Seq<char> {
    seq![
        '\t',
        '\n',
        '\u{b}',
        '\u{c}',
        '\r',
        ' ',
        '\u{85}',
        '\u{a0}',
        '\u{1680}',
        '\u{2000}',
        '\u{2001}',
        '\u{2002}',
        '\u{2003}',
        '\u{2004}',
        '\u{2005}',
        '\u{2006}',
        '\u{2007}',
        '\u{2008}',
        '\u{2009}',
        '\u{200a}',
        '\u{2028}',
        '\u{2029}',
        '\u{202f}',
        '\u{205f}',
        '\u{3000}',
    ]
}

/// A character is white space exactly when it is one of those listed.
pub proof fn law_space(c: char)
    ensures
        is_space(c) <==> spaces().contains(c),
{
    let all = spaces();
    if is_space(c) {
        let n = c as u32;
        let k = if n <= 0xd {
            n - 9
        } else if n == 0x20 {
            5
        } else if n == 0x85 {
            6
        } else if n == 0xa0 {
            7
        } else if n == 0x1680 {
            8
        } else if n <= 0x200a {
            n - 0x2000 + 9
        } else if n == 0x2028 {
            20
        } else if n == 0x2029 {
            21
        } else if n == 0x202f {
            22
        } else if n == 0x205f {
            23
        } else {
            24
        };
        assert(all[k] == c);
    }
}

/// Whether a text is nothing but white space.
pub open spec fn all_space(s: Seq<char>) -> bool {
    forall|i: int| 0 <= i < s.len() ==> is_space(#[trigger] s[i])
}

/// White space goes from the start of a text.
proof fn lemma_trimmed_start(a: Seq<char>, s: Seq<char>)
    requires
        all_space(a),
        s.len() > 0 ==> !is_space(s[0]),
    ensures
        trimmed_start(a + s) == s,
    decreases a.len(),
{
    if a.len() == 0 {
        assert(a + s =~= s);
    } else {
        assert((a + s).drop_first() =~= a.drop_first() + s);
        assert(is_space(a[0]));
        assert forall|i: int| 0 <= i < a.drop_first().len() implies is_space(
            #[trigger] a.drop_first()[i],
        ) by {
            assert(is_space(a[i + 1]));
        }
        lemma_trimmed_start(a.drop_first(), s);
    }
}

/// White space goes from the end of a text.
proof fn lemma_trimmed_end(s: Seq<char>, b: Seq<char>)
    requires
        all_space(b),
        s.len() > 0 ==> !is_space(s.last()),
    ensures
        trimmed_end(s + b) == s,
    decreases b.len(),
{
    if b.len() == 0 {
        assert(s + b =~= s);
    } else {
        assert((s + b).drop_last() =~= s + b.drop_last());
        assert((s + b).last() == b[b.len() - 1]);
        lemma_trimmed_end(s, b.drop_last());
    }
}

/// Trimming takes the white space off both ends of a text, and nothing else.
pub proof fn law_trimmed(before: Seq<char>, s: Seq<char>, after: Seq<char>)
    requires
        all_space(before),
        all_space(after),
        s.len() > 0 ==> !is_space(s[0]) && !is_space(s[s.len() - 1]),
    ensures
        trimmed(before + s + after) == s,
{
    if s.len() == 0 {
        assert(before + s + after =~= (before + after) + s);
        assert forall|i: int| 0 <= i < (before + after).len() implies is_space(
            #[trigger] (before + after)[i],
        ) by {
            if i < before.len() {
                assert(is_space(before[i]));
            } else {
                assert(is_space(after[i - before.len()]));
            }
        }
        lemma_trimmed_start(before + after, s);
    } else {
        assert(before + s + after =~= before + (s + after));
        lemma_trimmed_start(before, s + after);
        lemma_trimmed_end(s, after);
    }
}

/// A character that stands nowhere in the first part is found in the second.
proof fn lemma_position_behind(a: Seq<char>, b: Seq<char>, c: char, from: int)
    requires
        0 <= from <= b.len(),
    ensures
        position(a + b, c, a.len() + from) == a.len() + position(b, c, from),
    decreases b.len() - from,
{
    if from < b.len() && b[from] != c {
        lemma_position_behind(a, b, c, from + 1);
    }
}

/// A character is found where it stands first.
proof fn lemma_position_first(a: Seq<char>, c: char, b: Seq<char>, from: int)
    requires
        0 <= from <= a.len(),
        !a.contains(c),
    ensures
        position(a.push(c) + b, c, from) == a.len(),
        position(a, c, from) == a.len(),
    decreases a.len() - from,
{
    if from < a.len() {
        assert(a[from] != c);
        lemma_position_first(a, c, b, from + 1);
    }
}

/// The lines behind some text are lines by themselves.
proof fn lemma_lines_behind(a: Seq<char>, b: Seq<char>, from: int)
    requires
        0 <= from <= b.len(),
    ensures
        lines_from(a + b, a.len() + from) == lines_from(b, from),
    decreases b.len() - from,
{
    if from < b.len() {
        lemma_position_behind(a, b, '\n', from);
        crate::text::lemma_position_bounds(b, '\n', from);
        let end = position(b, '\n', from);
        assert((a + b).subrange(a.len() + from, a.len() + end) =~= b.subrange(from, end));
        if end < b.len() {
            lemma_lines_behind(a, b, end + 1);
        }
    }
}

/// A line ends at `\n` or `\r\n`; what follows is lines again. The last line
/// may go without an ending, and an empty text has no lines.
pub proof fn law_lines(line: Seq<char>, rest: Seq<char>)
    requires
        !line.contains('\n'),
    ensures
        line.len() > 0 && line[line.len() - 1] == '\r' ==> lines_of(line.push('\n') + rest)
            == seq![line.drop_last()] + lines_of(rest),
        line.len() == 0 || line[line.len() - 1] != '\r' ==> lines_of(line.push('\n') + rest)
            == seq![line] + lines_of(rest),
        line.len() > 0 ==> lines_of(line) == seq![line],
        line.len() == 0 ==> lines_of(line) == Seq::<Seq<char>>::empty(),
{
    let all = line.push('\n') + rest;
    lemma_position_first(line, '\n', rest, 0);
    assert(all.subrange(0, line.len() as int) =~= line);
    lemma_lines_behind(line.push('\n'), rest, 0);
    assert(line.subrange(0, line.len() as int) =~= line);
}

/// The first line of a text is what stands before its first line end.
pub proof fn law_first_line(line: Seq<char>, rest: Seq<char>)
    requires
        !line.contains('\n'),
        !line.contains('\r'),
    ensures
        first_line_of(line.push('\n') + rest) == line,
        first_line_of(line) == line,
{
    law_lines(line, rest);
    if line.len() > 0 {
        assert(line.contains(line[line.len() - 1]));
    } else {
        assert(first_line_of(line) =~= line);
    }
}

/// The pieces behind some text are pieces by themselves.
proof fn lemma_pieces_behind(a: Seq<char>, b: Seq<char>, sep: char, from: int)
    requires
        0 <= from <= b.len(),
    ensures
        pieces_from(a + b, sep, a.len() + from) == pieces_from(b, sep, from),
    decreases b.len() - from,
{
    lemma_position_behind(a, b, sep, from);
    crate::text::lemma_position_bounds(b, sep, from);
    let end = position(b, sep, from);
    assert((a + b).subrange(a.len() + from, a.len() + end) =~= b.subrange(from, end));
    if end < b.len() {
        lemma_pieces_behind(a, b, sep, end + 1);
    }
}

/// A text is cut at its separators: the first piece stands before the first of
/// them, and the other pieces are those of what follows it.
pub proof fn law_pieces(piece: Seq<char>, sep: char, rest: Seq<char>)
    requires
        !piece.contains(sep),
    ensures
        pieces(piece.push(sep) + rest, sep) == seq![piece] + pieces(rest, sep),
        pieces(piece, sep) == seq![piece],
{
    let all = piece.push(sep) + rest;
    lemma_position_first(piece, sep, rest, 0);
    assert(all.subrange(0, piece.len() as int) =~= piece);
    lemma_pieces_behind(piece.push(sep), rest, sep, 0);
    assert(piece.subrange(0, piece.len() as int) =~= piece);
}

/// The last piece of a text is what follows its last separator, or the whole
/// of it.
pub proof fn law_last_piece(before: Seq<char>, sep: char, piece: Seq<char>)
    requires
        !piece.contains(sep),
    ensures
        last_piece(before.push(sep) + piece, sep) == piece,
        last_piece(piece, sep) == piece,
    decreases piece.len(),
{
    if piece.len() == 0 {
        assert(before.push(sep) + piece =~= before.push(sep));
        assert(piece =~= Seq::<char>::empty());
    } else {
        let less = piece.drop_last();
        assert(piece.contains(piece[piece.len() - 1]));
        assert forall|i: int| 0 <= i < less.len() implies less[i] != sep by {
            assert(piece.contains(piece[i]));
        }
        law_last_piece(before, sep, less);
        assert((before.push(sep) + piece).drop_last() =~= before.push(sep) + less);
        assert(less.push(piece.last()) =~= piece);
    }
}

/// A run of a character goes from the end of a text, and nothing else.
pub proof fn law_without_trailing(s: Seq<char>, c: char, run: Seq<char>)
    requires
        s.len() > 0 ==> s[s.len() - 1] != c,
        forall|i: int| 0 <= i < run.len() ==> #[trigger] run[i] == c,
    ensures
        without_trailing(s + run, c) == s,
    decreases run.len(),
{
    if run.len() == 0 {
        assert(s + run =~= s);
    } else {
        assert((s + run).drop_last() =~= s + run.drop_last());
        assert((s + run).last() == run[run.len() - 1]);
        law_without_trailing(s, c, run.drop_last());
    }
}

/// Texts that are put together with a separator between each two have it once
/// between the first of them and the others.
pub proof fn law_joined(a: Seq<Seq<char>>, b: Seq<Seq<char>>, x: Seq<char>, sep: Seq<char>)
    requires
        a.len() > 0,
        b.len() > 0,
    ensures
        joined(a + b, sep) == joined(a, sep) + sep + joined(b, sep),
        joined(seq![x], sep) == x,
        joined(Seq::<Seq<char>>::empty(), sep) == Seq::<char>::empty(),
    decreases b.len(),
{
    let all = a + b;
    assert(all.last() == b.last());
    if b.len() == 1 {
        assert(all.drop_last() =~= a);
        assert(b.last() == b[0]);
    } else {
        assert(all.drop_last() =~= a + b.drop_last());
        law_joined(a, b.drop_last(), x, sep);
        assert(joined(a, sep) + sep + joined(b.drop_last(), sep) + sep + b.last() =~= joined(
            a,
            sep,
        ) + sep + (joined(b.drop_last(), sep) + sep + b.last()));
    }
}

/// The decimal form of a number is read as the number, and has no zero before
/// its other digits.
pub proof fn law_decimal(n: nat)
    ensures
        digits_value(decimal(n)) == n,
        all_digits(decimal(n)),
        decimal(n).len() > 0,
        n > 0 ==> decimal(n)[0] != '0',
        n == 0 ==> decimal(n) == seq!['0'],
    decreases n,
{
    let s = decimal(n);
    if n < 10 {
        assert(s.drop_last() =~= Seq::<char>::empty());
        assert(digits_value(Seq::<char>::empty()) == 0);
        assert(s.last() == digit(n as int));
        assert(is_digit(s[0]));
    } else {
        law_decimal(n / 10);
        assert(s.drop_last() =~= decimal(n / 10));
        assert forall|i: int| 0 <= i < s.len() implies is_digit(#[trigger] s[i]) by {
            if i < s.len() - 1 {
                assert(is_digit(decimal(n / 10)[i]));
            }
        }
    }
}

/// The last decimal digits of a number, as many as asked for, are read as the
/// number but for what stands before them.
pub proof fn law_padded(n: nat, places: nat)
    ensures
        padded(n, places).len() == places,
        all_digits(padded(n, places)),
        power_of_ten(places) > 0,
        digits_value(padded(n, places)) == n % power_of_ten(places),
    decreases places,
{
    let s = padded(n, places);
    if places > 0 {
        let rest = (places - 1) as nat;
        law_padded(n / 10, rest);
        assert(s.drop_last() =~= padded(n / 10, rest));
        assert forall|i: int| 0 <= i < s.len() implies is_digit(#[trigger] s[i]) by {
            if i < s.len() - 1 {
                assert(is_digit(padded(n / 10, rest)[i]));
            }
        }
        lemma_mod_breakdown(n as int, 10, power_of_ten(rest) as int);
    } else {
        lemma_fundamental_div_mod(n as int, 1);
    }
}

/// The end of an item behind some text is its end in the text by itself.
proof fn lemma_item_end_behind(a: Seq<char>, b: Seq<char>, from: int, quoted: bool)
    requires
        0 <= from <= b.len(),
    ensures
        item_end(a + b, a.len() + from, quoted) == a.len() + item_end(b, from, quoted),
    decreases b.len() - from,
{
    if from < b.len() && !(b[from] == ',' && !quoted) {
        lemma_item_end_behind(a, b, from + 1, quoted != (b[from] == '"'));
    }
}

/// The attributes behind some text are attributes by themselves.
proof fn lemma_attributes_behind(a: Seq<char>, b: Seq<char>, from: int)
    requires
        0 <= from <= b.len(),
    ensures
        attributes_from(a + b, a.len() + from) == attributes_from(b, from),
    decreases b.len() - from,
{
    if from < b.len() {
        lemma_item_end_behind(a, b, from, false);
        crate::attributes::lemma_item_end_bounds(b, from, false);
        let end = item_end(b, from, false);
        assert((a + b).subrange(a.len() + from, a.len() + end) =~= b.subrange(from, end));
        if end < b.len() {
            lemma_attributes_behind(a, b, end + 1);
        }
    }
}

/// Characters that neither quote nor end an item are passed over.
proof fn lemma_item_plain(s: Seq<char>, from: int, to: int, quoted: bool)
    requires
        0 <= from <= to <= s.len(),
        forall|i: int| from <= i < to ==> #[trigger] s[i] != '"' && (s[i] != ',' || quoted),
    ensures
        item_end(s, from, quoted) == item_end(s, to, quoted),
    decreases to - from,
{
    if from < to {
        assert(s[from] != '"' && (s[from] != ',' || quoted));
        lemma_item_plain(s, from + 1, to, quoted);
    }
}

/// Whether a text may be the name of an attribute: it is not empty and holds
/// neither white space nor quotes, commas or equals signs.
pub open spec fn is_name(s: Seq<char>) -> bool {
    s.len() > 0 && forall|i: int|
        0 <= i < s.len() ==> !is_space(#[trigger] s[i]) && s[i] != '"' && s[i] != ',' && s[i]
            != '='
}

/// An attribute list of one item.
proof fn lemma_item(name: Seq<char>, shown: Seq<char>, value: Seq<char>, rest: Seq<char>)
    requires
        is_name(name),
        shown.len() > 0,
        !is_space(shown[0]),
        !is_space(shown[shown.len() - 1]),
        crate::attributes::unquoted(shown) == value,
        item_end((name.push('=') + shown).push(',') + rest, 0, false) == name.len() + 1
            + shown.len(),
        item_end(name.push('=') + shown, 0, false) == name.len() + 1 + shown.len(),
    ensures
        attributes((name.push('=') + shown).push(',') + rest) == seq![(name, value)] + attributes(
            rest,
        ),
        attributes(name.push('=') + shown) == seq![(name, value)],
{
    let item = name.push('=') + shown;
    let all = item.push(',') + rest;
    let n = item.len() as int;
    assert(all.subrange(0, n) =~= item);
    assert(item.subrange(0, n) =~= item);
    assert(!name.contains('='));
    lemma_position_first(name, '=', shown, 0);
    assert(item.take(name.len() as int) =~= name);
    assert(item.skip(name.len() as int + 1) =~= shown);
    let none = Seq::<char>::empty();
    assert(none + name + none =~= name && none + shown + none =~= shown);
    law_trimmed(none, name, none);
    law_trimmed(none, shown, none);
    lemma_attributes_behind(item.push(','), rest, 0);
}

/// An attribute has the text between the quotes as its value, whatever that
/// is; what follows the comma is attributes again.
pub proof fn law_quoted_attribute(name: Seq<char>, value: Seq<char>, rest: Seq<char>)
    requires
        is_name(name),
        !value.contains('"'),
    ensures
        attributes((name.push('=').push('"') + value).push('"').push(',') + rest) == seq![
            (name, value),
        ] + attributes(rest),
        attributes((name.push('=').push('"') + value).push('"')) == seq![(name, value)],
{
    let shown = (seq!['"'] + value).push('"');
    let item = name.push('=') + shown;
    let all = item.push(',') + rest;
    assert(item =~= (name.push('=').push('"') + value).push('"'));
    assert(all =~= (name.push('=').push('"') + value).push('"').push(',') + rest);
    assert(crate::attributes::unquoted(shown) =~= value);
    let open = name.len() as int + 1;
    let close = open + value.len() + 1;
    assert forall|i: int| open < i < close implies #[trigger] item[i] != '"' by {
        assert(value.contains(value[i - open - 1]));
    }
    lemma_item_plain(item, 0, open, false);
    lemma_item_plain(item, open + 1, close, true);
    assert forall|i: int| open < i < close implies #[trigger] all[i] != '"' by {
        assert(value.contains(value[i - open - 1]));
    }
    lemma_item_plain(all, 0, open, false);
    lemma_item_plain(all, open + 1, close, true);
    assert(item[open] == '"' && item[close] == '"');
    assert(item_end(item, open, false) == item_end(item, open + 1, true));
    assert(item_end(item, close, true) == item_end(item, close + 1, false));
    assert(all[open] == '"' && all[close] == '"' && all[close + 1] == ',');
    assert(item_end(all, open, false) == item_end(all, open + 1, true));
    assert(item_end(all, close, true) == item_end(all, close + 1, false));
    lemma_item(name, shown, value, rest);
}

/// An attribute without quotes has the text up to the comma as its value.
pub proof fn law_plain_attribute(name: Seq<char>, value: Seq<char>, rest: Seq<char>)
    requires
        is_name(name),
        value.len() > 0,
        !value.contains('"'),
        !value.contains(','),
        !is_space(value[0]),
        !is_space(value[value.len() - 1]),
    ensures
        attributes((name.push('=') + value).push(',') + rest) == seq![(name, value)] + attributes(
            rest,
        ),
        attributes(name.push('=') + value) == seq![(name, value)],
        attributes(Seq::<char>::empty()) == Seq::<(Seq<char>, Seq<char>)>::empty(),
{
    let item = name.push('=') + value;
    let all = item.push(',') + rest;
    let n = item.len() as int;
    assert forall|i: int| 0 <= i < n implies #[trigger] item[i] != '"' && item[i] != ',' by {
        if i > name.len() {
            assert(value.contains(value[i - name.len() - 1]));
        }
    }
    assert forall|i: int| 0 <= i < n implies #[trigger] all[i] != '"' && all[i] != ',' by {
        assert(all[i] == item[i]);
    }
    assert(value.contains(value[0]));
    lemma_item_plain(item, 0, n, false);
    lemma_item_plain(all, 0, n, false);
    lemma_item(name, value, value, rest);
}

/// Of attributes with one name the last counts, and a name that no attribute
/// has gives no value.
pub proof fn law_lookup(
    before: Seq<(Seq<char>, Seq<char>)>,
    name: Seq<char>,
    value: Seq<char>,
    after: Seq<(Seq<char>, Seq<char>)>,
)
    requires
        forall|i: int| 0 <= i < after.len() ==> (#[trigger] after[i]).0 != name,
    ensures
        lookup(before.push((name, value)) + after, name) == Some(value),
        lookup(after, name) is None,
    decreases after.len(),
{
    let all = before.push((name, value)) + after;
    if after.len() == 0 {
        assert(all =~= before.push((name, value)));
    } else {
        assert(all.drop_last() =~= before.push((name, value)) + after.drop_last());
        assert(all.last() == after[after.len() - 1]);
        law_lookup(before, name, value, after.drop_last());
    }
}

/// White space round a name and round a value belongs to neither, and an item
/// without an equals sign is no attribute.
pub proof fn law_spaced_attribute(
    name: Seq<char>,
    value: Seq<char>,
    a: Seq<char>,
    b: Seq<char>,
    c: Seq<char>,
    d: Seq<char>,
    item: Seq<char>,
    rest: Seq<char>,
)
    requires
        is_name(name),
        is_name(value),
        all_space(a),
        all_space(b),
        all_space(c),
        all_space(d),
        !item.contains('='),
        !item.contains(','),
        !item.contains('"'),
    ensures
        attributes((a + name + b).push('=') + (c + value + d)) == seq![(name, value)],
        attributes(item.push(',') + rest) == attributes(rest),
{
    let left = a + name + b;
    let right = c + value + d;
    let all = left.push('=') + right;
    let n = all.len() as int;
    assert forall|i: int| 0 <= i < left.len() implies #[trigger] left[i] != '=' && left[i] != '"'
        && left[i] != ',' by {
        if i < a.len() {
            assert(is_space(a[i]));
        } else if i < a.len() + name.len() {
            assert(name[i - a.len()] == left[i]);
        } else {
            assert(is_space(b[i - a.len() - name.len()]));
        }
    }
    assert forall|i: int| 0 <= i < right.len() implies #[trigger] right[i] != '"' && right[i]
        != ',' by {
        if i < c.len() {
            assert(is_space(c[i]));
        } else if i < c.len() + value.len() {
            assert(value[i - c.len()] == right[i]);
        } else {
            assert(is_space(d[i - c.len() - value.len()]));
        }
    }
    assert forall|i: int| 0 <= i < n implies #[trigger] all[i] != '"' && all[i] != ',' by {
        if i < left.len() {
            assert(all[i] == left[i]);
        } else if i > left.len() {
            assert(all[i] == right[i - left.len() - 1]);
        }
    }
    lemma_item_plain(all, 0, n, false);
    assert(all.subrange(0, n) =~= all);
    assert(!left.contains('='));
    lemma_position_first(left, '=', right, 0);
    assert(all.take(left.len() as int) =~= left);
    assert(all.skip(left.len() as int + 1) =~= right);
    law_trimmed(a, name, b);
    law_trimmed(c, value, d);
    let more = item.push(',') + rest;
    let m = item.len() as int;
    assert forall|i: int| 0 <= i < m implies #[trigger] more[i] != '"' && more[i] != ',' by {
        assert(item.contains(item[i]));
    }
    lemma_item_plain(more, 0, m, false);
    assert(more.subrange(0, m) =~= item);
    lemma_position_first(item, '=', Seq::empty(), 0);
    lemma_attributes_behind(item.push(','), rest, 0);
    assert(Seq::<(Seq<char>, Seq<char>)>::empty() + attributes(rest) =~= attributes(rest));
}

} // verus!
