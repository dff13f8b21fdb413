//! The text of one line of a rendering: numbers, the node template, the
//! glyphs and the prefix of a tree line.

use vstd::prelude::*;
use crate::identity::{IdentityView, PackageIdentity};

verus! {

/// The decimal digit of a number below ten.
pub open spec fn digit(d: nat) -> char {
    if d == 0 {
        '0'
    } else if d == 1 {
        '1'
    } else if d == 2 {
        '2'
    } else if d == 3 {
        '3'
    } else if d == 4 {
        '4'
    } else if d == 5 {
        '5'
    } else if d == 6 {
        '6'
    } else if d == 7 {
        '7'
    } else if d == 8 {
        '8'
    } else {
        '9'
    }
}

/// A number in decimal, without leading zeros.
pub open spec fn decimal_text(n: nat) -> Seq<char>
    decreases n,
{
    if n < 10 {
        seq![digit(n)]
    } else {
        decimal_text(n / 10).push(digit(n % 10))
    }
}

/// The text of one decimal digit.
fn digit_str(d: usize) -> (r: &'static str)
    requires
        d < 10,
    ensures
        r@ == seq![digit(d as nat)],
{
    proof {
        reveal_strlit("0");
        reveal_strlit("1");
        reveal_strlit("2");
        reveal_strlit("3");
        reveal_strlit("4");
        reveal_strlit("5");
        reveal_strlit("6");
        reveal_strlit("7");
        reveal_strlit("8");
        reveal_strlit("9");
    }
    let r = if d == 0 {
        "0"
    } else if d == 1 {
        "1"
    } else if d == 2 {
        "2"
    } else if d == 3 {
        "3"
    } else if d == 4 {
        "4"
    } else if d == 5 {
        "5"
    } else if d == 6 {
        "6"
    } else if d == 7 {
        "7"
    } else if d == 8 {
        "8"
    } else {
        "9"
    };
    assert(r@ =~= seq![digit(d as nat)]);
    r
}

/// Writes a number in decimal.
pub fn decimal(n: usize) -> (text: String)
    ensures
        text@ == decimal_text(n as nat),
    decreases n,
{
    if n < 10 {
        digit_str(n).to_owned()
    } else {
        let mut text = decimal(n / 10);
        text.append(digit_str(n % 10));
        assert(text@ =~= decimal_text(n as nat / 10).push(digit(n as nat % 10)));
        text
    }
}

/// Whether the template has a field at `i`: an opening brace, one of the
/// letters `n`, `v`, `s` and `c`, and a closing brace.
pub open spec fn is_field_at(template: Seq<char>, i: int) -> bool {
    &&& 0 <= i
    &&& i + 2 < template.len()
    &&& template[i] == '{'
    &&& template[i + 2] == '}'
    &&& (template[i + 1] == 'n' || template[i + 1] == 'v' || template[i + 1] == 's' || template[i
        + 1] == 'c')
}

/// What a field stands for: `n` for the name of the package, `v` for its
/// version, `s` for its source and `c` for its exposure count.
pub open spec fn field_text(letter: char, id: IdentityView, count: Seq<char>) -> Seq<char> {
    if letter == 'n' {
        id.name
    } else if letter == 'v' {
        id.version
    } else if letter == 's' {
        id.source
    } else {
        count
    }
}

/// The template from `i` on with every field replaced by what it stands for.
/// Any other text stands for itself.
pub open spec fn expand_from(template: Seq<char>, i: int, id: IdentityView, count: Seq<char>) -> Seq<
    char,
>
    decreases template.len() - i,
{
    if i < 0 || i >= template.len() {
        Seq::empty()
    } else if is_field_at(template, i) {
        field_text(template[i + 1], id, count) + expand_from(template, i + 3, id, count)
    } else {
        seq![template[i]] + expand_from(template, i + 1, id, count)
    }
}

/// The template with every field replaced by what it stands for.
pub open spec fn expand(template: Seq<char>, id: IdentityView, count: Seq<char>) -> Seq<char> {
    expand_from(template, 0, id, count)
}

/// Writes a node as the template asks.
pub fn format_node(template: &str, id: &PackageIdentity, count: &str) -> (text: String)
    ensures
        text@ == expand(template@, id@, count@),
{
    let n = template.unicode_len();
    let mut text = String::new();
    let mut i: usize = 0;
    while i < n
        invariant
            n == template@.len(),
            i <= n,
            text@ + expand_from(template@, i as int, id@, count@) == expand(
                template@,
                id@,
                count@,
            ),
        decreases n - i,
    {
        let ghost before = text@;
        let ghost rest = expand_from(template@, i as int, id@, count@);
        let c = template.get_char(i);
        let mut field = false;
        if c == '{' && n - i > 2 {
            let letter = template.get_char(i + 1);
            let close = template.get_char(i + 2);
            if close == '}' {
                if letter == 'n' {
                    text.append(id.name.as_str());
                    field = true;
                } else if letter == 'v' {
                    text.append(id.version.as_str());
                    field = true;
                } else if letter == 's' {
                    text.append(id.source.as_str());
                    field = true;
                } else if letter == 'c' {
                    text.append(count);
                    field = true;
                }
            }
        }
        if field {
            proof {
                assert(is_field_at(template@, i as int));
                let piece = field_text(template@[i + 1], id@, count@);
                assert(rest == piece + expand_from(template@, i + 3, id@, count@));
                assert(text@ == before + piece);
                assert((before + piece) + expand_from(template@, i + 3, id@, count@) =~= before
                    + rest);
            }
            i += 3;
        } else {
            text.append(template.substring_char(i, i + 1));
            proof {
                assert(!is_field_at(template@, i as int));
                let piece = seq![template@[i as int]];
                assert(template@.subrange(i as int, i + 1) =~= piece);
                assert(rest == piece + expand_from(template@, i + 1, id@, count@));
                assert((before + piece) + expand_from(template@, i + 1, id@, count@) =~= before
                    + rest);
            }
            i += 1;
        }
    }
    assert(expand_from(template@, i as int, id@, count@) =~= Seq::<char>::empty());
    assert(text@ + Seq::<char>::empty() =~= text@);
    text
}

/// The set of glyphs that tree lines are drawn with.
#[derive(Clone, Copy, Debug, PartialEq, Eq, Structural)]
pub enum Charset {
    Utf8,
    Ascii,
}

/// How a line shows where its node stands in the walk.
#[derive(Clone, Copy, Debug, PartialEq, Eq, Structural)]
pub enum Prefix {
    /// Not at all: a flat list.
    Flat,
    /// By the branches of a tree.
    Indent,
    /// By the depth of the node, as a number.
    Depth,
}

/// The stroke that runs down past a line to a later sibling.
pub open spec fn down_glyph(charset: Charset) -> Seq<char> {
    match charset {
        Charset::Utf8 => seq!['\u{2502}'],
        Charset::Ascii => seq!['|'],
    }
}

/// The joint of a node that has a later sibling.
pub open spec fn tee_glyph(charset: Charset) -> Seq<char> {
    match charset {
        Charset::Utf8 => seq!['\u{251c}'],
        Charset::Ascii => seq!['|'],
    }
}

/// The joint of a node that is the last of its siblings.
pub open spec fn ell_glyph(charset: Charset) -> Seq<char> {
    match charset {
        Charset::Utf8 => seq!['\u{2514}'],
        Charset::Ascii => seq!['`'],
    }
}

/// The stroke that leads from a joint to the node.
pub open spec fn right_glyph(charset: Charset) -> Seq<char> {
    match charset {
        Charset::Utf8 => seq!['\u{2500}'],
        Charset::Ascii => seq!['-'],
    }
}

/// What stands in a tree line for the levels above the node's own: for each
/// of them a stroke where a later sibling follows at that level, else a
/// blank, and three blanks.
pub open spec fn stems_text(levels: Seq<bool>, charset: Charset) -> Seq<char>
    decreases levels.len(),
{
    if levels.len() == 0 {
        Seq::empty()
    } else {
        stems_text(levels.drop_last(), charset) + (if levels.last() {
            down_glyph(charset)
        } else {
            seq![' ']
        }) + seq![' ', ' ', ' ']
    }
}

/// What stands in a tree line for the node's own level: a joint, two strokes
/// and a blank.
pub open spec fn branch_text(continues: bool, charset: Charset) -> Seq<char> {
    (if continues {
        tee_glyph(charset)
    } else {
        ell_glyph(charset)
    }) + right_glyph(charset) + right_glyph(charset) + seq![' ']
}

/// What stands in front of a node in its line. `levels` says for each level
/// from the first below the root down to the node's own whether a later
/// sibling follows there.
pub open spec fn prefix_text(prefix: Prefix, levels: Seq<bool>, charset: Charset) -> Seq<char> {
    match prefix {
        Prefix::Flat => Seq::empty(),
        Prefix::Depth => decimal_text(levels.len()) + seq![' '],
        Prefix::Indent => if levels.len() == 0 {
            Seq::empty()
        } else {
            stems_text(levels.drop_last(), charset) + branch_text(levels.last(), charset)
        },
    }
}

fn down(charset: Charset) -> (r: &'static str)
    ensures
        r@ == down_glyph(charset),
{
    proof {
        reveal_strlit("\u{2502}");
        reveal_strlit("|");
    }
    let r = match charset {
        Charset::Utf8 => "\u{2502}",
        Charset::Ascii => "|",
    };
    assert(r@ =~= down_glyph(charset));
    r
}

fn tee(charset: Charset) -> (r: &'static str)
    ensures
        r@ == tee_glyph(charset),
{
    proof {
        reveal_strlit("\u{251c}");
        reveal_strlit("|");
    }
    let r = match charset {
        Charset::Utf8 => "\u{251c}",
        Charset::Ascii => "|",
    };
    assert(r@ =~= tee_glyph(charset));
    r
}

fn ell(charset: Charset) -> (r: &'static str)
    ensures
        r@ == ell_glyph(charset),
{
    proof {
        reveal_strlit("\u{2514}");
        reveal_strlit("`");
    }
    let r = match charset {
        Charset::Utf8 => "\u{2514}",
        Charset::Ascii => "`",
    };
    assert(r@ =~= ell_glyph(charset));
    r
}

fn right(charset: Charset) -> (r: &'static str)
    ensures
        r@ == right_glyph(charset),
{
    proof {
        reveal_strlit("\u{2500}");
        reveal_strlit("-");
    }
    let r = match charset {
        Charset::Utf8 => "\u{2500}",
        Charset::Ascii => "-",
    };
    assert(r@ =~= right_glyph(charset));
    r
}

/// Writes what stands in front of a node in its line.
pub fn line_prefix(prefix: Prefix, levels: &Vec<bool>, charset: Charset) -> (text: String)
    ensures
        text@ == prefix_text(prefix, levels@, charset),
{
    proof {
        reveal_strlit(" ");
        reveal_strlit("   ");
    }
    match prefix {
        Prefix::Flat => String::new(),
        Prefix::Depth => {
            let mut text = decimal(levels.len());
            text.append(" ");
            assert(text@ =~= decimal_text(levels@.len()) + seq![' ']);
            text
        },
        Prefix::Indent => {
            let mut text = String::new();
            if levels.len() == 0 {
                return text;
            }
            let last = levels.len() - 1;
            let mut i: usize = 0;
            assert(levels@.drop_last().take(0) =~= Seq::<bool>::empty());
            while i < last
                invariant
                    last == levels.len() - 1,
                    i <= last,
                    " "@ == seq![' '],
                    "   "@ == seq![' ', ' ', ' '],
                    text@ == stems_text(levels@.drop_last().take(i as int), charset),
                decreases last - i,
            {
                let ghost before = text@;
                if levels[i] {
                    text.append(down(charset));
                } else {
                    text.append(" ");
                }
                text.append("   ");
                proof {
                    let next = levels@.drop_last().take(i + 1);
                    assert(next.drop_last() =~= levels@.drop_last().take(i as int));
                    assert(next.last() == levels@[i as int]);
                    assert(text@ =~= before + (if levels@[i as int] {
                        down_glyph(charset)
                    } else {
                        seq![' ']
                    }) + seq![' ', ' ', ' ']);
                }
                i += 1;
            }
            assert(levels@.drop_last().take(i as int) =~= levels@.drop_last());
            let ghost stems = text@;
            if levels[last] {
                text.append(tee(charset));
            } else {
                text.append(ell(charset));
            }
            text.append(right(charset));
            text.append(right(charset));
            text.append(" ");
            assert(text@ =~= stems + branch_text(levels@.last(), charset));
            text
        },
    }
}

} // verus!
