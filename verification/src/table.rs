//! Text tables for a terminal: coloured text, padding and aligned fields.

use vstd::prelude::*;
use vstd::utf8::encode_utf8;

verus! {

/// How a field is placed in its column.
#[derive(PartialEq, Eq, Structural, Debug, Copy, Clone)]
pub enum Align {
    Left,
    Right,
    Center,
}

/// The colours that text can be shown in.
#[derive(PartialEq, Eq, Structural, Debug, Copy, Clone)]
pub enum Color {
    White,
    BoldWhite,
    BoldRed,
    BoldGreen,
    BoldBlue,
}

/// The types of column that a table tells apart.
#[derive(PartialEq, Eq, Structural, Debug, Copy, Clone)]
pub enum ColumnType {
    Text,
    Varchar,
    Bool,
    Int2,
    Int4,
    Int8,
    Float4,
    Float8,
    Timestamp,
    TimestampTZ,
    Date,
    Other,
}

/// The escape sequence that switches a colour on.
pub open spec fn color_code(color: Color) -> Seq<char> {
    match color {
        Color::White => "\x1B[33m\x1B[37m"@,
        Color::BoldWhite => "\x1B[33m\x1B[1m\x1B[33m\x1B[37m"@,
        Color::BoldRed => "\x1B[33m\x1B[1m\x1B[33m\x1B[31m"@,
        Color::BoldGreen => "\x1B[33m\x1B[1m\x1B[33m\x1B[32m"@,
        Color::BoldBlue => "\x1B[33m\x1B[1m\x1B[33m\x1B[34m"@,
    }
}

/// `text` between the sequence that switches `color` on and the one that
/// switches colours off.
pub open spec fn colored(text: Seq<char>, color: Color) -> Seq<char> {
    color_code(color) + text + "\x1B[33m\x1B[0m"@
}

/// `pad`, `n` times over.
pub open spec fn repeated(pad: Seq<char>, n: nat) -> Seq<char>
    decreases n,
{
    if n == 0 {
        Seq::empty()
    } else {
        repeated(pad, (n - 1) as nat) + pad
    }
}

/// The number of blanks that fill `column` up to `width`; none where the
/// column is wider. Widths count bytes.
pub open spec fn padding(column: Seq<char>, width: usize) -> nat {
    if encode_utf8(column).len() <= width {
        (width - encode_utf8(column).len()) as nat
    } else {
        0
    }
}

/// `column` in a field of `width` bytes. A centred field has the odd blank on
/// its right.
pub open spec fn field(column: Seq<char>, width: usize, align: Align) -> Seq<char> {
    let pad = padding(column, width);
    match align {
        Align::Center => repeated(" "@, pad / 2) + column + repeated(" "@, pad / 2 + pad % 2),
        Align::Right => repeated(" "@, pad) + column,
        Align::Left => column + repeated(" "@, pad),
    }
}

/// Numbers and dates stand on the right of their column, everything else on
/// the left.
pub open spec fn alignment(coltype: ColumnType) -> Align {
    match coltype {
        ColumnType::Int2 | ColumnType::Int4 | ColumnType::Int8 | ColumnType::Float4
        | ColumnType::Float8 | ColumnType::Date | ColumnType::Timestamp
        | ColumnType::TimestampTZ => Align::Right,
        _ => Align::Left,
    }
}

/// Wraps a text in the escape sequences of a colour.
pub fn color_text(text: &str, color: Color) -> (clrstr: String)
    ensures
        clrstr@ == colored(text@, color),
{
    let code = match color {
        Color::White => "\x1B[33m\x1B[37m",
        Color::BoldWhite => "\x1B[33m\x1B[1m\x1B[33m\x1B[37m",
        Color::BoldRed => "\x1B[33m\x1B[1m\x1B[33m\x1B[31m",
        Color::BoldGreen => "\x1B[33m\x1B[1m\x1B[33m\x1B[32m",
        Color::BoldBlue => "\x1B[33m\x1B[1m\x1B[33m\x1B[34m",
    };
    let mut clrstr = String::from_str(code);
    clrstr.append(text);
    clrstr.append("\x1B[33m\x1B[0m");
    clrstr
}

/// The side of the column on which a value of the given type stands.
pub fn get_alignment(coltype: &ColumnType) -> (align: Align)
    ensures
        align == alignment(*coltype),
{
    match coltype {
        ColumnType::Int2 => Align::Right,
        ColumnType::Int4 => Align::Right,
        ColumnType::Int8 => Align::Right,
        ColumnType::Float4 => Align::Right,
        ColumnType::Float8 => Align::Right,
        ColumnType::Date => Align::Right,
        ColumnType::Timestamp => Align::Right,
        ColumnType::TimestampTZ => Align::Right,
        _ => Align::Left,
    }
}

/// Repeats `pad` `len` times.
pub fn pad_gen(len: usize, pad: &str) -> (padstr: String)
    ensures
        padstr@ == repeated(pad@, len as nat),
{
    let mut padstr = String::new();
    let mut i: usize = 0;
    while i < len
        invariant
            0 <= i <= len,
            padstr@ == repeated(pad@, i as nat),
        decreases len - i,
    {
        padstr.append(pad);
        i += 1;
    }
    padstr
}

/// Places `column` in a field of `width` bytes.
pub fn format_field(column: &str, width: usize, align: Align) -> (ret: String)
    ensures
        ret@ == field(column@, width, align),
{
    let used = column.as_bytes().len();
    let padlen: usize = if used <= width {
        width - used
    } else {
        0
    };
    let extra: usize = padlen % 2;
    match align {
        Align::Center => {
            let mut ret = pad_gen(padlen / 2, " ");
            ret.append(column);
            ret.append(pad_gen(padlen / 2 + extra, " ").as_str());
            ret
        },
        Align::Right => {
            let mut ret = pad_gen(padlen, " ");
            ret.append(column);
            ret
        },
        Align::Left => {
            let mut ret = String::from_str(column);
            ret.append(pad_gen(padlen, " ").as_str());
            ret
        },
    }
}

/// The cells of a row, each in its field, with a bar between two cells.
pub open spec fn row_cells(
    coltypes: Seq<ColumnType>,
    colwidths: Seq<usize>,
    rowdata: Seq<Seq<char>>,
) -> Seq<char>
    decreases rowdata.len(),
{
    if rowdata.len() == 0 {
        Seq::empty()
    } else {
        let i = rowdata.len() - 1;
        let bar = if i > 0 {
            colored("|"@, Color::BoldWhite)
        } else {
            Seq::empty()
        };
        row_cells(coltypes, colwidths, rowdata.drop_last()) + bar + " "@ + field(
            rowdata[i],
            colwidths[i],
            alignment(coltypes[i]),
        ) + " "@
    }
}

/// The texts of a list of strings.
pub open spec fn string_views(v: Seq<String>) -> Seq<Seq<char>> {
    v.map_values(|s: String| s@)
}

/// One row of a table as a line of text, without the end of the line.
pub fn row_text(coltypes: &Vec<ColumnType>, colwidths: &Vec<usize>, rowdata: &Vec<String>) -> (line:
    String)
    requires
        rowdata.len() <= coltypes.len(),
        rowdata.len() <= colwidths.len(),
    ensures
        line@ == row_cells(coltypes@, colwidths@, string_views(rowdata@)),
{
    let mut line = String::new();
    let ghost cells = string_views(rowdata@);
    let mut i: usize = 0;
    assert(cells.take(0) =~= Seq::<Seq<char>>::empty());
    while i < rowdata.len()
        invariant
            0 <= i <= rowdata.len(),
            rowdata.len() <= coltypes.len(),
            rowdata.len() <= colwidths.len(),
            cells == string_views(rowdata@),
            line@ == row_cells(coltypes@, colwidths@, cells.take(i as int)),
        decreases rowdata.len() - i,
    {
        let ghost before = line@;
        if i > 0 {
            line.append(color_text("|", Color::BoldWhite).as_str());
        }
        line.append(" ");
        line.append(
            format_field(rowdata[i].as_str(), colwidths[i], get_alignment(&coltypes[i])).as_str(),
        );
        line.append(" ");
        proof {
            let more = cells.take(i + 1);
            assert(more.drop_last() =~= cells.take(i as int));
            assert(more[i as int] == rowdata@[i as int]@);
            let bar = if i > 0 {
                colored("|"@, Color::BoldWhite)
            } else {
                Seq::empty()
            };
            assert(line@ =~= before + bar + " "@ + field(
                more[i as int],
                colwidths@[i as int],
                alignment(coltypes@[i as int]),
            ) + " "@);
        }
        i += 1;
    }
    assert(cells.take(i as int) =~= cells);
    line
}

/// The names of the columns, each centred in its field and shown in bold,
/// with a bar between two names.
pub open spec fn header_cells(colwidths: Seq<usize>, colnames: Seq<Seq<char>>) -> Seq<char>
    decreases colnames.len(),
{
    if colnames.len() == 0 {
        Seq::empty()
    } else {
        let i = colnames.len() - 1;
        let bar = if i > 0 {
            colored("|"@, Color::BoldWhite)
        } else {
            Seq::empty()
        };
        header_cells(colwidths, colnames.drop_last()) + bar + " "@ + colored(
            field(colnames[i], colwidths[i], Align::Center),
            Color::BoldWhite,
        ) + " "@
    }
}

/// The rule under the names: dashes as wide as each column and its two
/// blanks, with a bar between two columns.
pub open spec fn rule_cells(colwidths: Seq<usize>) -> Seq<char>
    decreases colwidths.len(),
{
    if colwidths.len() == 0 {
        Seq::empty()
    } else {
        let i = colwidths.len() - 1;
        let bar = if i > 0 {
            colored("|"@, Color::BoldWhite)
        } else {
            Seq::empty()
        };
        rule_cells(colwidths.drop_last()) + bar + colored(
            repeated("-"@, (colwidths[i] + 2) as nat),
            Color::BoldWhite,
        )
    }
}

/// The head of a table: the line of the names and the rule under it, each
/// with the end of its line.
pub fn header_text(colwidths: &Vec<usize>, colnames: &Vec<String>) -> (head: String)
    requires
        colnames.len() <= colwidths.len(),
        forall|i: int| 0 <= i < colwidths.len() ==> colwidths[i] + 2 <= usize::MAX,
    ensures
        head@ == header_cells(colwidths@, string_views(colnames@)) + "\n"@ + rule_cells(
            colwidths@,
        ) + "\n"@,
{
    let mut head = String::new();
    let ghost names = string_views(colnames@);
    let mut i: usize = 0;
    assert(names.take(0) =~= Seq::<Seq<char>>::empty());
    while i < colnames.len()
        invariant
            0 <= i <= colnames.len(),
            colnames.len() <= colwidths.len(),
            names == string_views(colnames@),
            head@ == header_cells(colwidths@, names.take(i as int)),
        decreases colnames.len() - i,
    {
        let ghost before = head@;
        if i > 0 {
            head.append(color_text("|", Color::BoldWhite).as_str());
        }
        head.append(" ");
        let name = format_field(colnames[i].as_str(), colwidths[i], Align::Center);
        head.append(color_text(name.as_str(), Color::BoldWhite).as_str());
        head.append(" ");
        proof {
            let more = names.take(i + 1);
            assert(more.drop_last() =~= names.take(i as int));
            assert(more[i as int] == colnames@[i as int]@);
            let bar = if i > 0 {
                colored("|"@, Color::BoldWhite)
            } else {
                Seq::empty()
            };
            assert(head@ =~= before + bar + " "@ + colored(
                field(more[i as int], colwidths@[i as int], Align::Center),
                Color::BoldWhite,
            ) + " "@);
        }
        i += 1;
    }
    assert(names.take(i as int) =~= names);
    head.append("\n");
    let ghost first = head@;
    let mut rule = String::new();
    let mut j: usize = 0;
    assert(colwidths@.take(0) =~= Seq::<usize>::empty());
    while j < colwidths.len()
        invariant
            0 <= j <= colwidths.len(),
            forall|i: int| 0 <= i < colwidths.len() ==> colwidths[i] + 2 <= usize::MAX,
            rule@ == rule_cells(colwidths@.take(j as int)),
        decreases colwidths.len() - j,
    {
        let ghost before = rule@;
        if j > 0 {
            rule.append(color_text("|", Color::BoldWhite).as_str());
        }
        let dashes = pad_gen(colwidths[j] + 2, "-");
        rule.append(color_text(dashes.as_str(), Color::BoldWhite).as_str());
        proof {
            let more = colwidths@.take(j + 1);
            assert(more.drop_last() =~= colwidths@.take(j as int));
            let bar = if j > 0 {
                colored("|"@, Color::BoldWhite)
            } else {
                Seq::empty()
            };
            assert(rule@ =~= before + bar + colored(
                repeated("-"@, (more[j as int] + 2) as nat),
                Color::BoldWhite,
            ));
        }
        j += 1;
    }
    assert(colwidths@.take(j as int) =~= colwidths@);
    head.append(rule.as_str());
    head.append("\n");
    head
}

/// The widths after a row was seen: no column is narrower than its cell.
pub open spec fn widened(colwidths: Seq<usize>, row: Seq<Seq<char>>) -> Seq<usize> {
    Seq::new(
        colwidths.len(),
        |i: int|
            if i < row.len() && colwidths[i] < encode_utf8(row[i]).len() {
                encode_utf8(row[i]).len() as usize
            } else {
                colwidths[i]
            },
    )
}

/// Widens the columns so that the cells of `row` fit.
pub fn widen(colwidths: &mut Vec<usize>, row: &Vec<String>)
    ensures
        final(colwidths)@ == widened(old(colwidths)@, string_views(row@)),
{
    let ghost cells = string_views(row@);
    let mut i: usize = 0;
    while i < colwidths.len() && i < row.len()
        invariant
            0 <= i <= colwidths.len(),
            colwidths.len() == old(colwidths).len(),
            cells == string_views(row@),
            forall|k: int|
                0 <= k < i ==> colwidths@[k] == #[trigger] widened(old(colwidths)@, cells)[k],
            forall|k: int| i <= k < colwidths.len() ==> colwidths@[k] == old(colwidths)@[k],
        decreases colwidths.len() - i,
    {
        let used = row[i].as_str().as_bytes().len();
        assert(cells[i as int] == row@[i as int]@);
        if colwidths[i] < used {
            colwidths.set(i, used);
        }
        i += 1;
    }
    assert(colwidths@ =~= widened(old(colwidths)@, cells));
}

} // verus!
