//! The text form of a dataset: the type's name, then one line per column.

use crate::columns::DataOriented;
use vstd::prelude::*;

verus! {

/// The character for a single decimal digit.
pub open spec fn digit(d: nat) -> char
    recommends
        d < 10,
{
    if d == 0 {
        '0'
    } else if d == 1 {
        '1'
    } else if d == 2 {
        '2'
    } else if d == 3 {
        '3'
    } else if d == 4 {
        '4'
    } else if d == 5 {
        '5'
    } else if d == 6 {
        '6'
    } else if d == 7 {
        '7'
    } else if d == 8 {
        '8'
    } else {
        '9'
    }
}

/// A number in decimal, without leading zeros.
pub open spec fn decimal(n: nat) -> Seq<char>
    decreases n,
{
    if n < 10 {
        seq![digit(n)]
    } else {
        decimal(n / 10).push(digit(n % 10))
    }
}

/// The texts of `items` in order, with a comma and a space between
/// neighbours.
pub open spec fn joined(items: Seq<Seq<char>>) -> Seq<char>
    decreases items.len(),
{
    if items.len() == 0 {
        Seq::empty()
    } else if items.len() == 1 {
        items[0]
    } else {
        joined(items.drop_last()) + seq![',', ' '] + items.last()
    }
}

/// A value that can stand in a column's line of text.
pub trait FieldText: Sized {
    /// The value as text.
    spec fn text(self) -> Seq<char>;

    /// Writes the value's text at the end of `out`.
    fn append_to(&self, out: &mut String)
        ensures
            final(out)@ == old(out)@ + self.text(),
    ;
}

/// The one-character text of a digit.
fn digit_str(d: u32) -> (s: &'static str)
    requires
        d < 10,
    ensures
        s@ == seq![digit(d as nat)],
{
    proof {
        reveal_strlit("0");
        reveal_strlit("1");
        reveal_strlit("2");
        reveal_strlit("3");
        reveal_strlit("4");
        reveal_strlit("5");
        reveal_strlit("6");
        reveal_strlit("7");
        reveal_strlit("8");
        reveal_strlit("9");
    }
    let s: &'static str = if d == 0 {
        "0"
    } else if d == 1 {
        "1"
    } else if d == 2 {
        "2"
    } else if d == 3 {
        "3"
    } else if d == 4 {
        "4"
    } else if d == 5 {
        "5"
    } else if d == 6 {
        "6"
    } else if d == 7 {
        "7"
    } else if d == 8 {
        "8"
    } else {
        "9"
    };
    assert(s@ =~= seq![digit(d as nat)]);
    s
}

/// Writes `n` in decimal at the end of `out`.
fn append_decimal(out: &mut String, n: u32)
    ensures
        final(out)@ == old(out)@ + decimal(n as nat),
    decreases n,
{
    if n >= 10 {
        append_decimal(out, n / 10);
    }
    out.append(digit_str(n % 10));
    assert(out@ =~= old(out)@ + decimal(n as nat));
}

impl FieldText for u32 {
    open spec fn text(self) -> Seq<char> {
        decimal(self as nat)
    }

    fn append_to(&self, out: &mut String) {
        append_decimal(out, *self);
    }
}

impl FieldText for u16 {
    open spec fn text(self) -> Seq<char> {
        decimal(self as nat)
    }

    fn append_to(&self, out: &mut String) {
        append_decimal(out, *self as u32);
    }
}

impl FieldText for u8 {
    open spec fn text(self) -> Seq<char> {
        decimal(self as nat)
    }

    fn append_to(&self, out: &mut String) {
        append_decimal(out, *self as u32);
    }
}

impl FieldText for bool {
    open spec fn text(self) -> Seq<char> {
        if self {
            "true"@
        } else {
            "false"@
        }
    }

    fn append_to(&self, out: &mut String) {
        if *self {
            out.append("true");
        } else {
            out.append("false");
        }
    }
}

/// The text of a column: its values between square brackets, with a comma
/// and a space between neighbours.
pub open spec fn column_text<T: FieldText>(column: Seq<T>) -> Seq<char> {
    seq!['['] + joined(column.map_values(|value: T| value.text())) + seq![']']
}

/// Writes the text of `column` at the end of `out`.
pub fn append_column<T: FieldText>(out: &mut String, column: &[T])
    ensures
        final(out)@ == old(out)@ + column_text(column@),
{
    proof {
        reveal_strlit("[");
    }
    let ghost texts = column@.map_values(|value: T| value.text());
    out.append("[");
    let mut i: usize = 0;
    while i < column.len()
        invariant
            i <= column@.len(),
            texts == column@.map_values(|value: T| value.text()),
            out@ == old(out)@ + seq!['['] + joined(texts.take(i as int)),
        decreases column@.len() - i,
    {
        let ghost before = out@;
        if i > 0 {
            out.append(", ");
        }
        column[i].append_to(out);
        proof {
            let upto = texts.take(i + 1);
            assert(upto.drop_last() =~= texts.take(i as int));
            assert(upto.last() == column@[i as int].text());
            if i > 0 {
                reveal_strlit(", ");
                assert(", "@ =~= seq![',', ' ']);
                assert(joined(upto) == joined(upto.drop_last()) + seq![',', ' '] + upto.last());
                assert(out@ == before + seq![',', ' '] + upto.last());
            } else {
                assert(joined(upto) == upto.last());
                assert(joined(texts.take(0)) =~= Seq::<char>::empty());
                assert(out@ == before + upto.last());
            }
            assert(out@ =~= old(out)@ + seq!['['] + joined(upto));
        }
        i += 1;
    }
    out.append("]");
    proof {
        reveal_strlit("]");
        assert(texts.take(i as int) =~= texts);
        assert(out@ =~= old(out)@ + column_text(column@));
    }
}

impl DataOriented {
    /// The dataset as text: an opening line with the type's name, one
    /// indented line for each column with the column's name and values, and
    /// a closing line.
    pub open spec fn debug_text(&self) -> Seq<char> {
        "DataOriented {\n"@ + "    query_index: "@ + column_text(self.query_index@) + "\n"@
            + "    distance: "@ + column_text(self.distance@) + "\n"@ + "    attribute: "@
            + column_text(self.attribute@) + "\n"@ + "    word_index: "@ + column_text(
            self.word_index@,
        ) + "\n"@ + "    is_exact: "@ + column_text(self.is_exact@) + "\n"@ + "}\n"@
    }

    /// Writes the dataset out as text.
    pub fn to_debug_string(&self) -> (text: String)
        ensures
            text@ == self.debug_text(),
    {
        let mut text: String = String::new();
        text.append("DataOriented {\n");
        text.append("    query_index: ");
        append_column(&mut text, self.query_index.as_slice());
        text.append("\n");
        text.append("    distance: ");
        append_column(&mut text, self.distance.as_slice());
        text.append("\n");
        text.append("    attribute: ");
        append_column(&mut text, self.attribute.as_slice());
        text.append("\n");
        text.append("    word_index: ");
        append_column(&mut text, self.word_index.as_slice());
        text.append("\n");
        text.append("    is_exact: ");
        append_column(&mut text, self.is_exact.as_slice());
        text.append("\n");
        text.append("}\n");
        assert(text@ =~= self.debug_text());
        text
    }
}

} // verus!
