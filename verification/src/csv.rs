//! Tables of options as text.
//!
//! A table is a header line and one line per option, with fields set apart by
//! commas: spot, strike, expiry, rate, premium, the volatility behind it, the
//! kind, and in an adversarial table what the row exercises and the status that
//! it should get. Reading a number from its field is left to a reader, and a
//! number is written by the text that stands for it.
use crate::double::Double;
use crate::kind::{code_of, OptionKind};
use vstd::prelude::*;
use vstd::string::*;

verus! {

/// White space, as it is trimmed off a field.
pub open spec fn is_space(c: char) -> bool {
    let n = c as int;
    ||| 0x09 <= n <= 0x0D
    ||| n == 0x20
    ||| n == 0x85
    ||| n == 0xA0
    ||| n == 0x1680
    ||| 0x2000 <= n <= 0x200A
    ||| n == 0x2028
    ||| n == 0x2029
    ||| n == 0x202F
    ||| n == 0x205F
    ||| n == 0x3000
}

/// Whether the character is white space.
fn space(c: char) -> (r: bool)
    ensures
        r == is_space(c),
{
    let n: u32 = c as u32;
    (0x09 <= n && n <= 0x0D) || n == 0x20 || n == 0x85 || n == 0xA0 || n == 0x1680 || (0x2000 <= n
        && n <= 0x200A) || n == 0x2028 || n == 0x2029 || n == 0x202F || n == 0x205F || n == 0x3000
}

/// The text from its first character that is not white space on.
pub open spec fn left_trimmed(s: Seq<char>) -> Seq<char>
    decreases s.len(),
{
    if s.len() > 0 && is_space(s[0]) {
        left_trimmed(s.drop_first())
    } else {
        s
    }
}

/// The text up to its last character that is not white space.
pub open spec fn right_trimmed(s: Seq<char>) -> Seq<char>
    decreases s.len(),
{
    if s.len() > 0 && is_space(s.last()) {
        right_trimmed(s.drop_last())
    } else {
        s
    }
}

/// The text without white space at its ends.
pub open spec fn trimmed(s: Seq<char>) -> Seq<char> {
    right_trimmed(left_trimmed(s))
}

/// The text without white space at its ends.
pub fn trim(s: &[char]) -> (r: Vec<char>)
    ensures
        r@ == trimmed(s@),
{
    let n: usize = s.len();
    let mut a: usize = 0;
    assert(s@.skip(0) =~= s@);
    while a < n && space(s[a])
        invariant
            n == s@.len(),
            a <= n,
            left_trimmed(s@) == left_trimmed(s@.skip(a as int)),
        decreases n - a,
    {
        assert(s@.skip(a as int).drop_first() =~= s@.skip(a + 1));
        a += 1;
    }
    let ghost left = s@.skip(a as int);
    assert(left_trimmed(s@) == left);
    let mut b: usize = n;
    assert(s@.subrange(a as int, b as int) =~= left);
    while a < b && space(s[b - 1])
        invariant
            n == s@.len(),
            a <= b <= n,
            right_trimmed(left) == right_trimmed(s@.subrange(a as int, b as int)),
        decreases b,
    {
        assert(s@.subrange(a as int, b as int).drop_last() =~= s@.subrange(a as int, b - 1));
        b -= 1;
    }
    assert(right_trimmed(left) == s@.subrange(a as int, b as int));
    let mut r: Vec<char> = Vec::new();
    let mut i: usize = a;
    while i < b
        invariant
            n == s@.len(),
            a <= i <= b <= n,
            r@ == s@.subrange(a as int, i as int),
        decreases b - i,
    {
        r.push(s[i]);
        i += 1;
        assert(s@.subrange(a as int, i as int) =~= s@.subrange(a as int, i - 1).push(s@[i - 1]));
    }
    r
}

/// The pieces of a text between the separators, at least one.
pub open spec fn pieces(s: Seq<char>, sep: char) -> Seq<Seq<char>>
    decreases s.len(),
{
    if s.len() == 0 {
        seq![Seq::<char>::empty()]
    } else {
        let before = pieces(s.drop_last(), sep);
        if s.last() == sep {
            before.push(Seq::<char>::empty())
        } else {
            before.drop_last().push(before.last().push(s.last()))
        }
    }
}

/// The views of the pieces.
pub open spec fn views(v: Seq<Vec<char>>) -> Seq<Seq<char>> {
    Seq::new(v.len(), |i: int| v[i]@)
}

/// There is always a last piece.
proof fn lemma_pieces_nonempty(s: Seq<char>, sep: char)
    ensures
        pieces(s, sep).len() > 0,
    decreases s.len(),
{
    if s.len() > 0 {
        lemma_pieces_nonempty(s.drop_last(), sep);
    }
}

/// Cuts a text at the separators.
pub fn split(s: &[char], sep: char) -> (r: Vec<Vec<char>>)
    ensures
        views(r@) == pieces(s@, sep),
{
    let mut done: Vec<Vec<char>> = Vec::new();
    let mut open: Vec<char> = Vec::new();
    let mut i: usize = 0;
    assert(s@.take(0) =~= Seq::<char>::empty());
    assert(views(done@).push(open@) =~= pieces(s@.take(0), sep));
    while i < s.len()
        invariant
            i <= s@.len(),
            views(done@).push(open@) == pieces(s@.take(i as int), sep),
        decreases s@.len() - i,
    {
        let c: char = s[i];
        let ghost prefix = s@.take(i as int);
        let ghost longer = s@.take(i + 1);
        proof {
            assert(longer.drop_last() =~= prefix);
            assert(longer.last() == c);
            assert(views(done@).push(open@).drop_last() =~= views(done@));
        }
        if c == sep {
            let ghost before = views(done@).push(open@);
            let ghost olds = done@;
            let ghost tail = open;
            done.push(open);
            open = Vec::new();
            proof {
                assert(views(done@) =~= before) by {
                    assert(done@ == olds.push(tail));
                }
                assert(views(done@).push(open@) =~= pieces(longer, sep));
            }
        } else {
            open.push(c);
            assert(views(done@).push(open@) =~= pieces(longer, sep));
        }
        i += 1;
    }
    assert(s@.take(s@.len() as int) =~= s@);
    let ghost olds = done@;
    let ghost tail = open;
    done.push(open);
    assert(views(done@) =~= views(olds).push(tail@));
    done
}

/// A line without a carriage return at its end.
pub open spec fn without_return(s: Seq<char>) -> Seq<char> {
    if s.len() > 0 && s.last() == '\r' {
        s.drop_last()
    } else {
        s
    }
}

/// The lines of a text. What follows the last line break is a line only if
/// there is something there.
pub open spec fn lines_of(s: Seq<char>) -> Seq<Seq<char>> {
    let all = pieces(s, '\n');
    let closed = Seq::new((all.len() - 1) as nat, |i: int| without_return(all[i]));
    if all.last().len() == 0 {
        closed
    } else {
        closed.push(all.last())
    }
}

/// The lines of a text.
pub fn lines(text: &[char]) -> (r: Vec<Vec<char>>)
    ensures
        views(r@) == lines_of(text@),
{
    let all = split(text, '\n');
    let ghost pieces_seq = pieces(text@, '\n');
    proof {
        lemma_pieces_nonempty(text@, '\n');
        assert(all@.len() == views(all@).len());
    }
    let last: usize = all.len() - 1;
    let mut r: Vec<Vec<char>> = Vec::new();
    let mut i: usize = 0;
    while i < last
        invariant
            last + 1 == all@.len(),
            views(all@) == pieces_seq,
            i <= last,
            views(r@) == Seq::new(i as nat, |j: int| without_return(pieces_seq[j])),
        decreases last - i,
    {
        let line = strip_return(&all[i]);
        let ghost before = r@;
        let ghost text_line = line@;
        r.push(line);
        proof {
            assert(views(all@)[i as int] == all@[i as int]@);
            assert(views(r@) =~= views(before).push(text_line));
            assert(views(r@) =~= Seq::new(
                (i + 1) as nat,
                |j: int| without_return(pieces_seq[j]),
            ));
        }
        i += 1;
    }
    assert(views(all@)[last as int] == all@[last as int]@);
    if all[last].len() > 0 {
        let line = copy(&all[last]);
        let ghost before = r@;
        let ghost text_line = line@;
        r.push(line);
        assert(views(r@) =~= views(before).push(text_line));
    }
    r
}

/// A copy of a text.
fn copy(s: &Vec<char>) -> (r: Vec<char>)
    ensures
        r@ == s@,
{
    let mut r: Vec<char> = Vec::new();
    let mut i: usize = 0;
    while i < s.len()
        invariant
            i <= s@.len(),
            r@ == s@.take(i as int),
        decreases s@.len() - i,
    {
        r.push(s[i]);
        i += 1;
        assert(s@.take(i as int) =~= s@.take(i - 1).push(s@[i - 1]));
    }
    assert(s@.take(s@.len() as int) =~= s@);
    r
}

/// A line without a carriage return at its end.
fn strip_return(s: &Vec<char>) -> (r: Vec<char>)
    ensures
        r@ == without_return(s@),
{
    let mut r = copy(s);
    let n: usize = r.len();
    if n > 0 && r[n - 1] == '\r' {
        r.pop();
        assert(r@ =~= s@.drop_last());
    }
    r
}

/// Which columns a table is read for, and how strictly.
#[derive(Clone, Copy, Debug, PartialEq, Eq, Structural)]
pub struct Layout {
    /// Read the volatility behind the premium.
    pub sigma: bool,
    /// Read what the row exercises, and the status that it should get.
    pub labels: bool,
    /// Take nothing but `c` and `p` for a kind, with no white space.
    pub strict: bool,
}

/// What is wrong with a table.
#[derive(Clone, Copy, Debug, PartialEq, Eq, Structural)]
pub enum CsvError {
    /// The row ends before the column.
    MissingField { row: usize, column: usize },
    /// The field is not a number.
    BadNumber { row: usize, column: usize },
    /// The field names no kind.
    UnknownKind { row: usize },
}

/// Reads numbers.
pub trait NumberReader {
    /// The number that the field holds, if it holds one.
    fn read(&self, field: &[char]) -> Option<Double>;
}

/// The reader may read the field so.
pub open spec fn read_as<R: NumberReader>(reader: R, field: Seq<char>, r: Option<Double>) -> bool {
    exists|slice: &[char]|
        #![trigger call_ensures(R::read, (&reader, slice), r)]
        slice@ == field && call_ensures(R::read, (&reader, slice), r)
}

/// The number of leading fields that hold numbers.
pub open spec fn number_columns(layout: Layout) -> int {
    if layout.sigma {
        6
    } else {
        5
    }
}

/// The first column, from `c` on, that is missing or holds no number.
pub open spec fn number_fault(
    fields: int,
    nums: Seq<Option<Double>>,
    columns: int,
    row: usize,
    c: int,
) -> Option<CsvError>
    decreases columns - c,
{
    if c >= columns {
        None
    } else if c >= fields {
        Some(CsvError::MissingField { row, column: c as usize })
    } else if nums[c] is None {
        Some(CsvError::BadNumber { row, column: c as usize })
    } else {
        number_fault(fields, nums, columns, row, c + 1)
    }
}

/// The kind that a field names: strictly, by its letter alone; else a call by
/// its letter between white space, and a put by anything else.
pub open spec fn kind_field(field: Seq<char>, strict: bool) -> Option<OptionKind> {
    if strict {
        if field == seq!['c'] {
            Some(OptionKind::Call)
        } else if field == seq!['p'] {
            Some(OptionKind::Put)
        } else {
            None
        }
    } else if trimmed(field) == seq!['c'] {
        Some(OptionKind::Call)
    } else {
        Some(OptionKind::Put)
    }
}

/// The first thing wrong with a row, numbers before kind before labels.
pub open spec fn row_fault(
    fields: Seq<Seq<char>>,
    nums: Seq<Option<Double>>,
    layout: Layout,
    row: usize,
) -> Option<CsvError> {
    match number_fault(fields.len() as int, nums, number_columns(layout), row, 0) {
        Some(e) => Some(e),
        None => if fields.len() <= 6 {
            Some(CsvError::MissingField { row, column: 6 })
        } else if kind_field(fields[6], layout.strict) is None {
            Some(CsvError::UnknownKind { row })
        } else if layout.labels && fields.len() <= 7 {
            Some(CsvError::MissingField { row, column: 7 })
        } else if layout.labels && fields.len() <= 8 {
            Some(CsvError::MissingField { row, column: 8 })
        } else {
            None
        },
    }
}

/// A row of a table.
pub struct CsvRow {
    pub spot: Double,
    pub strike: Double,
    pub tte: Double,
    pub rate: Double,
    pub price: Double,
    /// The volatility behind the premium, where it is read.
    pub sigma: Option<Double>,
    pub kind: OptionKind,
    /// What the row exercises, where it is read.
    pub regime: Vec<char>,
    /// The status that it should get, where it is read.
    pub expected: Vec<char>,
}

/// The row holds what its fields say.
pub open spec fn row_holds(
    fields: Seq<Seq<char>>,
    nums: Seq<Option<Double>>,
    layout: Layout,
    r: CsvRow,
) -> bool {
    &&& Some(r.spot) == nums[0]
    &&& Some(r.strike) == nums[1]
    &&& Some(r.tte) == nums[2]
    &&& Some(r.rate) == nums[3]
    &&& Some(r.price) == nums[4]
    &&& layout.sigma ==> r.sigma == nums[5]
    &&& !layout.sigma ==> r.sigma is None
    &&& Some(r.kind) == kind_field(fields[6], layout.strict)
    &&& layout.labels ==> r.regime@ == trimmed(fields[7]) && r.expected@ == trimmed(fields[8])
    &&& !layout.labels ==> r.regime@.len() == 0 && r.expected@.len() == 0
}

/// The leading fields may be read so.
pub open spec fn numbers_read<R: NumberReader>(
    reader: R,
    fields: Seq<Seq<char>>,
    layout: Layout,
    nums: Seq<Option<Double>>,
) -> bool {
    &&& nums.len() == if fields.len() < number_columns(layout) {
        fields.len() as int
    } else {
        number_columns(layout)
    }
    &&& forall|c: int|
        0 <= c < nums.len() ==> read_as(reader, fields[c], #[trigger] nums[c])
}

/// `r` is what the reader makes of a line: the first fault, or the row.
pub open spec fn row_parsed<R: NumberReader>(
    reader: R,
    line: Seq<char>,
    layout: Layout,
    row: usize,
    r: Result<CsvRow, CsvError>,
) -> bool {
    exists|nums: Seq<Option<Double>>|
        #![trigger numbers_read(reader, pieces(line, ','), layout, nums)]
        numbers_read(reader, pieces(line, ','), layout, nums) && match row_fault(
            pieces(line, ','),
            nums,
            layout,
            row,
        ) {
            Some(e) => r matches Err(f) && f == e,
            None => r matches Ok(v) && row_holds(pieces(line, ','), nums, layout, v),
        }
}

/// Whether the text is one character.
fn is_letter(s: &Vec<char>, c: char) -> (r: bool)
    ensures
        r == (s@ == seq![c]),
{
    let r: bool = s.len() == 1 && s[0] == c;
    proof {
        if r {
            assert(s@ =~= seq![c]);
        } else if s@ == seq![c] {
            assert(s@.len() == 1 && s@[0] == c);
        }
    }
    r
}

/// The kind that a field names.
pub fn read_kind(field: &Vec<char>, strict: bool) -> (r: Option<OptionKind>)
    ensures
        r == kind_field(field@, strict),
{
    if strict {
        if is_letter(field, 'c') {
            Some(OptionKind::Call)
        } else if is_letter(field, 'p') {
            Some(OptionKind::Put)
        } else {
            None
        }
    } else {
        let t = trim(field.as_slice());
        if is_letter(&t, 'c') {
            Some(OptionKind::Call)
        } else {
            Some(OptionKind::Put)
        }
    }
}

/// The first column that is missing or holds no number.
fn find_number_fault(
    fields: usize,
    nums: &Vec<Option<Double>>,
    columns: usize,
    row: usize,
) -> (r: Option<CsvError>)
    requires
        nums@.len() == if fields < columns {
            fields
        } else {
            columns
        },
    ensures
        r == number_fault(fields as int, nums@, columns as int, row, 0),
{
    let mut c: usize = 0;
    while c < columns
        invariant
            c <= columns,
            nums@.len() == if fields < columns {
                fields
            } else {
                columns
            },
            number_fault(fields as int, nums@, columns as int, row, 0) == number_fault(
                fields as int,
                nums@,
                columns as int,
                row,
                c as int,
            ),
        decreases columns - c,
    {
        if c >= fields {
            return Some(CsvError::MissingField { row, column: c });
        }
        if nums[c].is_none() {
            return Some(CsvError::BadNumber { row, column: c });
        }
        c += 1;
    }
    None
}

/// Reads the leading fields of a line.
fn read_numbers<R: NumberReader>(reader: &R, fields: &Vec<Vec<char>>, columns: usize) -> (nums: Vec<
    Option<Double>,
>)
    ensures
        nums@.len() == if fields@.len() < columns {
            fields@.len()
        } else {
            columns as nat
        },
        forall|c: int|
            0 <= c < nums@.len() ==> read_as(*reader, views(fields@)[c], #[trigger] nums@[c]),
{
    let mut nums: Vec<Option<Double>> = Vec::new();
    let mut c: usize = 0;
    while c < columns && c < fields.len()
        invariant
            c <= columns,
            c <= fields@.len(),
            nums@.len() == c,
            forall|d: int|
                0 <= d < c ==> read_as(*reader, views(fields@)[d], #[trigger] nums@[d]),
        decreases columns - c,
    {
        let field = fields[c].as_slice();
        let x = reader.read(field);
        assert(views(fields@)[c as int] == field@);
        assert(read_as(*reader, views(fields@)[c as int], x));
        nums.push(x);
        c += 1;
    }
    nums
}

/// Reads a row.
pub fn parse_row<R: NumberReader>(reader: &R, line: &[char], layout: Layout, row: usize) -> (r:
    Result<CsvRow, CsvError>)
    ensures
        row_parsed(*reader, line@, layout, row, r),
{
    let fields = split(line, ',');
    let ghost f = pieces(line@, ',');
    assert(fields@.len() == f.len()) by {
        assert(views(fields@).len() == fields@.len());
    }
    let columns: usize = if layout.sigma {
        6
    } else {
        5
    };
    let nums = read_numbers(reader, &fields, columns);
    assert(numbers_read(*reader, f, layout, nums@));
    let n: usize = fields.len();
    match find_number_fault(n, &nums, columns, row) {
        Some(e) => {
            return Err(e);
        },
        None => {},
    }
    proof {
        lemma_no_fault(n as int, nums@, columns as int, row, 0);
    }
    if n <= 6 {
        return Err(CsvError::MissingField { row, column: 6 });
    }
    assert(views(fields@)[6] == fields@[6]@);
    let kind = match read_kind(&fields[6], layout.strict) {
        Some(kind) => kind,
        None => {
            return Err(CsvError::UnknownKind { row });
        },
    };
    let mut regime: Vec<char> = Vec::new();
    let mut expected: Vec<char> = Vec::new();
    if layout.labels {
        if n <= 7 {
            return Err(CsvError::MissingField { row, column: 7 });
        }
        if n <= 8 {
            return Err(CsvError::MissingField { row, column: 8 });
        }
        assert(views(fields@)[7] == fields@[7]@ && views(fields@)[8] == fields@[8]@);
        regime = trim(fields[7].as_slice());
        expected = trim(fields[8].as_slice());
    }
    let sigma: Option<Double> = if layout.sigma {
        nums[5]
    } else {
        None
    };
    assert(nums@[0] is Some && nums@[1] is Some && nums@[2] is Some && nums@[3] is Some && nums@[4] is Some);
    let out = CsvRow {
        spot: nums[0].unwrap(),
        strike: nums[1].unwrap(),
        tte: nums[2].unwrap(),
        rate: nums[3].unwrap(),
        price: nums[4].unwrap(),
        sigma,
        kind,
        regime,
        expected,
    };
    assert(row_holds(f, nums@, layout, out));
    Ok(out)
}

/// Without a fault every column is there and holds a number.
proof fn lemma_no_fault(fields: int, nums: Seq<Option<Double>>, columns: int, row: usize, c: int)
    requires
        0 <= c,
        number_fault(fields, nums, columns, row, c) is None,
    ensures
        forall|d: int| c <= d < columns ==> d < fields && #[trigger] nums[d] is Some,
    decreases columns - c,
{
    if c < columns {
        lemma_no_fault(fields, nums, columns, row, c + 1);
    }
}

/// Line `i` behind the header parses to a row.
pub open spec fn row_is_good<R: NumberReader>(
    reader: R,
    lines: Seq<Seq<char>>,
    layout: Layout,
    i: int,
) -> bool {
    exists|good: CsvRow| #[trigger]
        row_parsed(reader, lines[i + 1], layout, i as usize, Ok(good))
}

/// `rows` are the rows behind the header, in order.
pub open spec fn table_read<R: NumberReader>(
    reader: R,
    lines: Seq<Seq<char>>,
    layout: Layout,
    rows: Seq<CsvRow>,
) -> bool {
    &&& rows.len() == if lines.len() == 0 {
        0
    } else {
        lines.len() - 1
    }
    &&& forall|i: int|
        0 <= i < rows.len() ==> row_parsed(
            reader,
            lines[i + 1],
            layout,
            i as usize,
            Ok(#[trigger] rows[i]),
        )
}

/// `e` is what is wrong with the first row that is wrong.
pub open spec fn table_fault<R: NumberReader>(
    reader: R,
    lines: Seq<Seq<char>>,
    layout: Layout,
    i: int,
    e: CsvError,
) -> bool {
    &&& 0 <= i < lines.len() - 1
    &&& row_parsed(reader, lines[i + 1], layout, i as usize, Err(e))
    &&& forall|j: int| 0 <= j < i ==> #[trigger] row_is_good(reader, lines, layout, j)
}

/// `r` is what the reader makes of a text: the rows behind the header, or what
/// is wrong with the first that is wrong.
pub open spec fn table_parsed<R: NumberReader>(
    reader: R,
    text: Seq<char>,
    layout: Layout,
    r: Result<Vec<CsvRow>, CsvError>,
) -> bool {
    match r {
        Ok(rows) => table_read(reader, lines_of(text), layout, rows@),
        Err(e) => exists|i: int| #[trigger] table_fault(reader, lines_of(text), layout, i, e),
    }
}

/// Reads a table. The first line is a header and is not looked at.
pub fn parse_table<R: NumberReader>(reader: &R, text: &[char], layout: Layout) -> (r: Result<
    Vec<CsvRow>,
    CsvError,
>)
    ensures
        table_parsed(*reader, text@, layout, r),
{
    let all = lines(text);
    let ghost list = lines_of(text@);
    assert(all@.len() == list.len()) by {
        assert(views(all@).len() == all@.len());
    }
    let mut rows: Vec<CsvRow> = Vec::new();
    let mut i: usize = 1;
    while i < all.len()
        invariant
            1 <= i,
            all@.len() > 0 ==> i <= all@.len(),
            all@.len() == 0 ==> i == 1,
            views(all@) == list,
            list == lines_of(text@),
            all@.len() == list.len(),
            rows@.len() == i - 1,
            forall|j: int|
                0 <= j < i - 1 ==> row_parsed(
                    *reader,
                    list[j + 1],
                    layout,
                    j as usize,
                    Ok(#[trigger] rows@[j]),
                ),
        decreases all@.len() - i,
    {
        assert(views(all@)[i as int] == all@[i as int]@);
        match parse_row(reader, all[i].as_slice(), layout, i - 1) {
            Ok(row) => {
                rows.push(row);
            },
            Err(e) => {
                proof {
                    assert forall|j: int| 0 <= j < i - 1 implies #[trigger] row_is_good(
                        *reader,
                        list,
                        layout,
                        j,
                    ) by {
                        assert(row_parsed(
                            *reader,
                            list[j + 1],
                            layout,
                            j as usize,
                            Ok(rows@[j]),
                        ));
                    }
                    assert(table_fault(*reader, list, layout, i - 1, e));
                }
                return Err(e);
            },
        }
        i += 1;
    }
    Ok(rows)
}

/// What follows a flag among the arguments: the argument behind the first one
/// that equals the flag.
pub open spec fn flag_place(args: Seq<Seq<char>>, flag: Seq<char>, n: int) -> Option<int>
    decreases n,
{
    if n <= 0 {
        None
    } else {
        match flag_place(args, flag, n - 1) {
            Some(p) => Some(p),
            None => if args[n - 1] == flag {
                Some(n - 1)
            } else {
                None
            },
        }
    }
}

/// The place of the argument that follows a flag.
pub open spec fn value_place(args: Seq<Seq<char>>, flag: Seq<char>) -> Option<int> {
    match flag_place(args, flag, args.len() as int) {
        Some(p) => if p + 1 < args.len() {
            Some(p + 1)
        } else {
            None
        },
        None => None,
    }
}

/// Whether two texts are the same.
fn same(a: &Vec<char>, b: &[char]) -> (r: bool)
    ensures
        r == (a@ == b@),
{
    if a.len() != b.len() {
        return false;
    }
    let mut i: usize = 0;
    while i < b.len()
        invariant
            a@.len() == b@.len(),
            i <= b@.len(),
            forall|j: int| 0 <= j < i ==> a@[j] == b@[j],
        decreases b@.len() - i,
    {
        if a[i] != b[i] {
            assert(a@[i as int] != b@[i as int]);
            return false;
        }
        i += 1;
    }
    assert(a@ =~= b@);
    true
}

/// The place of the argument that follows the first of a flag.
pub fn find_value(args: &[Vec<char>], flag: &[char]) -> (r: Option<usize>)
    ensures
        match r {
            Some(p) => value_place(views(args@), flag@) == Some(p as int),
            None => value_place(views(args@), flag@) is None,
        },
{
    let n: usize = args.len();
    let mut i: usize = 0;
    while i < n
        invariant
            n == args@.len(),
            i <= n,
            flag_place(views(args@), flag@, i as int) is None,
        decreases n - i,
    {
        assert(views(args@)[i as int] == args@[i as int]@);
        if same(&args[i], flag) {
            proof {
                lemma_flag_stays(views(args@), flag@, i + 1, n as int);
            }
            if i + 1 < n {
                return Some(i + 1);
            }
            return None;
        }
        i += 1;
    }
    None
}

/// The first of a flag stays the first.
proof fn lemma_flag_stays(args: Seq<Seq<char>>, flag: Seq<char>, a: int, b: int)
    requires
        0 <= a <= b <= args.len(),
        flag_place(args, flag, a) is Some,
    ensures
        flag_place(args, flag, b) == flag_place(args, flag, a),
    decreases b,
{
    if a < b {
        lemma_flag_stays(args, flag, a, b - 1);
    }
}

/// A text without separators is one piece; joining two texts with a separator
/// joins their pieces.
pub proof fn law_pieces_of_joined(a: Seq<char>, b: Seq<char>, sep: char)
    ensures
        pieces(a + seq![sep] + b, sep) == pieces(a, sep) + pieces(b, sep),
        !b.contains(sep) ==> pieces(b, sep) == seq![b],
    decreases b.len(),
{
    let whole = a + seq![sep] + b;
    lemma_pieces_nonempty(b, sep);
    if b.len() == 0 {
        assert(whole.drop_last() =~= a);
        assert(whole.last() == sep);
        assert(pieces(whole, sep) =~= pieces(a, sep) + pieces(b, sep));
        assert(b =~= Seq::<char>::empty());
    } else {
        let shorter = b.drop_last();
        law_pieces_of_joined(a, shorter, sep);
        lemma_pieces_nonempty(shorter, sep);
        assert(whole.drop_last() =~= a + seq![sep] + shorter);
        assert(whole.last() == b.last());
        let left = pieces(a, sep);
        let right = pieces(shorter, sep);
        assert((left + right).last() == right.last());
        assert((left + right).drop_last() =~= left + right.drop_last());
        assert(pieces(whole, sep) =~= left + pieces(b, sep));
        if !b.contains(sep) {
            assert(b[b.len() - 1] == b.last());
            assert forall|i: int| 0 <= i < shorter.len() implies shorter[i] != sep by {
                assert(b[i] == shorter[i]);
            }
            assert(!shorter.contains(sep));
            assert(right == seq![shorter]);
            assert(shorter.push(b.last()) =~= b);
            assert(pieces(b, sep) =~= seq![b]);
        }
    }
}

/// The fields in one line, set apart by a separator.
pub open spec fn joined(fields: Seq<Seq<char>>, sep: char) -> Seq<char>
    decreases fields.len(),
{
    if fields.len() == 0 {
        Seq::empty()
    } else if fields.len() == 1 {
        fields[0]
    } else {
        joined(fields.drop_last(), sep) + seq![sep] + fields.last()
    }
}

/// The lines in one text, each closed by a line break.
pub open spec fn closed_lines(lines: Seq<Seq<char>>) -> Seq<char>
    decreases lines.len(),
{
    if lines.len() == 0 {
        Seq::empty()
    } else {
        closed_lines(lines.drop_last()) + lines.last() + seq!['\n']
    }
}

/// A row to be written: the texts of its numbers, its kind, and its labels.
pub struct WrittenRow {
    pub texts: Seq<Seq<char>>,
    pub kind: OptionKind,
    pub labels: Seq<Seq<char>>,
}

/// The fields of a row: its numbers, its kind, its labels.
pub open spec fn row_fields(row: WrittenRow) -> Seq<Seq<char>> {
    row.texts.push(code_of(row.kind)) + row.labels
}

/// The line of a row.
pub open spec fn row_text(row: WrittenRow) -> Seq<char> {
    joined(row_fields(row), ',')
}

/// The text of a table: its header, and the lines of its rows.
pub open spec fn table_text(header: Seq<char>, rows: Seq<WrittenRow>) -> Seq<char> {
    closed_lines(seq![header] + rows.map_values(|row: WrittenRow| row_text(row)))
}

/// Appends a text.
fn append(out: &mut Vec<char>, s: &[char])
    ensures
        final(out)@ == old(out)@ + s@,
{
    let mut i: usize = 0;
    assert(old(out)@ + s@.take(0) =~= old(out)@);
    while i < s.len()
        invariant
            i <= s@.len(),
            out@ == old(out)@ + s@.take(i as int),
        decreases s@.len() - i,
    {
        out.push(s[i]);
        i += 1;
        assert(s@.take(i as int) =~= s@.take(i - 1).push(s@[i - 1]));
        assert(out@ =~= old(out)@ + s@.take(i as int));
    }
    assert(s@.take(s@.len() as int) =~= s@);
}

/// Writes the line of a row, without its line break.
pub fn write_row(texts: &[Vec<char>], kind: OptionKind, labels: &[Vec<char>]) -> (r: Vec<char>)
    ensures
        r@ == row_text((WrittenRow { texts: views(texts@), kind, labels: views(labels@) })),
{
    let ghost row = WrittenRow { texts: views(texts@), kind, labels: views(labels@) };
    let ghost fields = row_fields(row);
    let letter: char = kind.code().get_char(0);
    let n: usize = texts.len();
    let mut r: Vec<char> = Vec::new();
    let mut i: usize = 0;
    assert(joined(fields.take(0), ',') =~= r@);
    while i < n
        invariant
            n == texts@.len(),
            i <= n,
            n < fields.len(),
            forall|j: int| 0 <= j < n ==> fields[j] == (#[trigger] texts@[j])@,
            r@ == joined(fields.take(i as int), ','),
        decreases n - i,
    {
        if i > 0 {
            r.push(',');
        }
        append(&mut r, texts[i].as_slice());
        proof {
            assert(fields[i as int] == texts@[i as int]@);
            lemma_joined_grows(fields, i as int);
        }
        i += 1;
    }
    if n > 0 {
        r.push(',');
    }
    r.push(letter);
    proof {
        assert(fields[n as int] =~= seq![letter]);
        lemma_joined_grows(fields, n as int);
        assert(r@ =~= joined(fields.take(n + 1), ','));
    }
    let m: usize = labels.len();
    let mut i: usize = 0;
    while i < m
        invariant
            n == texts@.len(),
            m == labels@.len(),
            i <= m,
            fields.len() == n + 1 + m,
            forall|j: int| 0 <= j < m ==> fields[n + 1 + j] == (#[trigger] labels@[j])@,
            r@ == joined(fields.take(n + 1 + i), ','),
        decreases m - i,
    {
        r.push(',');
        append(&mut r, labels[i].as_slice());
        proof {
            assert(fields[n + 1 + i] == labels@[i as int]@);
            lemma_joined_grows(fields, n + 1 + i);
        }
        i += 1;
    }
    assert(fields.take(fields.len() as int) =~= fields);
    r
}

/// One more field is appended behind a separator, but for the first.
proof fn lemma_joined_grows(fields: Seq<Seq<char>>, i: int)
    requires
        0 <= i < fields.len(),
    ensures
        joined(fields.take(i + 1), ',') == if i == 0 {
            fields[i]
        } else {
            joined(fields.take(i), ',') + seq![','] + fields[i]
        },
        i == 0 ==> joined(fields.take(i), ',').len() == 0,
{
    assert(fields.take(i + 1).drop_last() =~= fields.take(i));
    assert(fields.take(i + 1).last() == fields[i]);
}

/// One more line is appended, and closed.
proof fn lemma_closed_grows(lines: Seq<Seq<char>>, i: int)
    requires
        0 <= i < lines.len(),
    ensures
        closed_lines(lines.take(i + 1)) == (closed_lines(lines.take(i)) + lines[i]).push('\n'),
        i == 0 ==> closed_lines(lines.take(i)).len() == 0,
{
    assert(lines.take(i + 1).drop_last() =~= lines.take(i));
    assert(lines.take(i + 1).last() == lines[i]);
    let head = closed_lines(lines.take(i)) + lines[i];
    assert(head + seq!['\n'] =~= head.push('\n'));
}

/// Writes a table of rows that are lines already, behind a header.
pub fn write_table(header: &[char], rows: &[Vec<char>]) -> (r: Vec<char>)
    ensures
        r@ == closed_lines(seq![header@] + views(rows@)),
{
    let ghost all = seq![header@] + views(rows@);
    let mut r: Vec<char> = Vec::new();
    append(&mut r, header);
    r.push('\n');
    proof {
        lemma_closed_grows(all, 0);
        assert(closed_lines(all.take(0)) + all[0] =~= header@);
    }
    let mut i: usize = 0;
    while i < rows.len()
        invariant
            i <= rows@.len(),
            all.len() == rows@.len() + 1,
            forall|j: int| 0 <= j < rows@.len() ==> (#[trigger] rows@[j])@ == all[j + 1],
            r@ == closed_lines(all.take(i + 1)),
        decreases rows@.len() - i,
    {
        append(&mut r, rows[i].as_slice());
        r.push('\n');
        proof {
            lemma_closed_grows(all, i + 1);
        }
        i += 1;
    }
    assert(all.take(all.len() as int) =~= all);
    r
}

/// Fields without the separator come back from the line that they were joined
/// in.
pub proof fn law_fields_come_back(fields: Seq<Seq<char>>, sep: char)
    requires
        fields.len() > 0,
        forall|i: int| 0 <= i < fields.len() ==> !(#[trigger] fields[i]).contains(sep),
    ensures
        pieces(joined(fields, sep), sep) == fields,
    decreases fields.len(),
{
    if fields.len() == 1 {
        law_pieces_of_joined(Seq::empty(), fields[0], sep);
        assert(fields =~= seq![fields[0]]);
    } else {
        let before = fields.drop_last();
        assert forall|i: int| 0 <= i < before.len() implies !(#[trigger] before[i]).contains(sep) by {
            assert(before[i] == fields[i]);
        }
        law_fields_come_back(before, sep);
        law_pieces_of_joined(joined(before, sep), fields.last(), sep);
        assert(!fields[fields.len() - 1].contains(sep));
        assert(before + seq![fields.last()] =~= fields);
    }
}

/// A line that the reading of lines leaves as it is.
pub open spec fn is_line(s: Seq<char>) -> bool {
    !s.contains('\n') && (s.len() > 0 ==> s.last() != '\r')
}

/// The pieces of closed lines are the lines, and nothing behind the last.
proof fn lemma_closed_pieces(lines: Seq<Seq<char>>)
    requires
        forall|i: int| 0 <= i < lines.len() ==> is_line(#[trigger] lines[i]),
    ensures
        pieces(closed_lines(lines), '\n') == lines.push(Seq::empty()),
    decreases lines.len(),
{
    if lines.len() == 0 {
        assert(lines.push(Seq::empty()) =~= seq![Seq::<char>::empty()]);
    } else {
        let before = lines.drop_last();
        let last = lines.last();
        assert forall|i: int| 0 <= i < before.len() implies is_line(#[trigger] before[i]) by {
            assert(before[i] == lines[i]);
        }
        lemma_closed_pieces(before);
        assert(is_line(lines[lines.len() - 1]));
        let head = closed_lines(before);
        lemma_last_piece_grows(head, last, '\n');
        let whole = head + last;
        assert(pieces(head, '\n').last() =~= Seq::<char>::empty());
        assert(pieces(head, '\n').last() + last =~= last);
        assert(pieces(whole, '\n') =~= lines);
        assert(closed_lines(lines).drop_last() =~= whole);
        assert(closed_lines(lines).last() == '\n');
    }
}

/// What holds no separator goes to the last piece.
proof fn lemma_last_piece_grows(a: Seq<char>, b: Seq<char>, sep: char)
    requires
        !b.contains(sep),
    ensures
        pieces(a + b, sep) == pieces(a, sep).drop_last().push(pieces(a, sep).last() + b),
    decreases b.len(),
{
    lemma_pieces_nonempty(a, sep);
    if b.len() == 0 {
        assert(a + b =~= a);
        assert(pieces(a, sep).last() + b =~= pieces(a, sep).last());
        assert(pieces(a, sep).drop_last().push(pieces(a, sep).last()) =~= pieces(a, sep));
    } else {
        let shorter = b.drop_last();
        assert forall|i: int| 0 <= i < shorter.len() implies shorter[i] != sep by {
            assert(b[i] == shorter[i]);
        }
        lemma_last_piece_grows(a, shorter, sep);
        assert((a + b).drop_last() =~= a + shorter);
        assert((a + b).last() == b.last());
        assert(b[b.len() - 1] != sep);
        let grown = pieces(a, sep).last() + shorter;
        assert(grown.push(b.last()) =~= pieces(a, sep).last() + b);
        assert(pieces(a + shorter, sep).drop_last() =~= pieces(a, sep).drop_last());
    }
}

/// Lines come back from the text that they were closed in.
pub proof fn law_lines_come_back(lines: Seq<Seq<char>>)
    requires
        forall|i: int| 0 <= i < lines.len() ==> is_line(#[trigger] lines[i]),
    ensures
        lines_of(closed_lines(lines)) == lines,
{
    lemma_closed_pieces(lines);
    let all = pieces(closed_lines(lines), '\n');
    assert forall|i: int| 0 <= i < lines.len() implies without_return(#[trigger] all[i]) == lines[i] by {
        assert(is_line(lines[i]));
    }
    assert(lines_of(closed_lines(lines)) =~= lines);
}

/// A text that may stand in a field: no comma, and nothing that ends a line.
pub open spec fn is_field(s: Seq<char>) -> bool {
    !s.contains(',') && !s.contains('\n') && !s.contains('\r')
}

/// What a row was written from: the numbers behind its texts.
pub open spec fn written<R: NumberReader>(
    reader: R,
    row: WrittenRow,
    nums: Seq<Double>,
    layout: Layout,
) -> bool {
    &&& row.texts.len() == 6
    &&& nums.len() == 6
    &&& forall|c: int| 0 <= c < 6 ==> is_field(#[trigger] row.texts[c])
    &&& forall|c: int, r: Option<Double>|
        0 <= c < 6 && #[trigger] read_as(reader, row.texts[c], r) ==> r == Some(nums[c])
    &&& layout.labels ==> row.labels.len() >= 2
    &&& forall|c: int|
        0 <= c < row.labels.len() ==> is_field(#[trigger] row.labels[c]) && trimmed(row.labels[c])
            == row.labels[c]
}

/// The row that was read is the row that was written.
pub open spec fn reads_back(row: WrittenRow, nums: Seq<Double>, layout: Layout, r: CsvRow) -> bool {
    &&& r.spot == nums[0]
    &&& r.strike == nums[1]
    &&& r.tte == nums[2]
    &&& r.rate == nums[3]
    &&& r.price == nums[4]
    &&& r.sigma == if layout.sigma {
        Some(nums[5])
    } else {
        None
    }
    &&& r.kind == row.kind
    &&& layout.labels ==> r.regime@ == row.labels[0] && r.expected@ == row.labels[1]
}

/// A table reads back as it was written: with a reader that reads each written
/// number back, and fields that hold neither commas nor line ends, the reading
/// succeeds, and its columns are those that were written, in order.
pub proof fn law_written_table_reads_back<R: NumberReader>(
    reader: R,
    header: Seq<char>,
    rows: Seq<WrittenRow>,
    nums: Seq<Seq<Double>>,
    layout: Layout,
    r: Result<Vec<CsvRow>, CsvError>,
)
    requires
        is_line(header),
        nums.len() == rows.len(),
        forall|i: int|
            0 <= i < rows.len() ==> written(reader, #[trigger] rows[i], nums[i], layout),
        table_parsed(reader, table_text(header, rows), layout, r),
    ensures
        r matches Ok(out) && out@.len() == rows.len() && forall|i: int|
            0 <= i < rows.len() ==> reads_back(rows[i], nums[i], layout, #[trigger] out@[i]),
{
    let lines = seq![header] + rows.map_values(|row: WrittenRow| row_text(row));
    assert forall|i: int| 0 <= i < lines.len() implies is_line(#[trigger] lines[i]) by {
        if i > 0 {
            assert(written(reader, rows[i - 1], nums[i - 1], layout));
            lemma_row_is_a_line(reader, rows[i - 1], nums[i - 1], layout);
            assert(lines[i] == row_text(rows[i - 1]));
        }
    }
    law_lines_come_back(lines);
    match r {
        Ok(out) => {
            assert forall|i: int| 0 <= i < rows.len() implies reads_back(
                rows[i],
                nums[i],
                layout,
                #[trigger] out@[i],
            ) by {
                assert(written(reader, rows[i], nums[i], layout));
                assert(lines[i + 1] == row_text(rows[i]));
                lemma_row_reads_back(
                    reader,
                    rows[i],
                    nums[i],
                    layout,
                    i as usize,
                    Ok(out@[i]),
                );
            }
        },
        Err(e) => {
            let i = choose|i: int| #[trigger] table_fault(reader, lines, layout, i, e);
            assert(written(reader, rows[i], nums[i], layout));
            assert(lines[i + 1] == row_text(rows[i]));
            lemma_row_reads_back(reader, rows[i], nums[i], layout, i as usize, Err(e));
        },
    }
}

/// A joined line holds a character other than the separator only if a field
/// does.
proof fn lemma_joined_holds(fields: Seq<Seq<char>>, sep: char, c: char)
    requires
        c != sep,
        forall|i: int| 0 <= i < fields.len() ==> !(#[trigger] fields[i]).contains(c),
    ensures
        !joined(fields, sep).contains(c),
    decreases fields.len(),
{
    if fields.len() == 1 {
        assert(!fields[0].contains(c));
    } else if fields.len() > 1 {
        let before = fields.drop_last();
        assert forall|i: int| 0 <= i < before.len() implies !(#[trigger] before[i]).contains(c) by {
            assert(before[i] == fields[i]);
        }
        lemma_joined_holds(before, sep, c);
        assert(!fields[fields.len() - 1].contains(c));
        let head = joined(before, sep);
        let whole = joined(fields, sep);
        assert forall|i: int| 0 <= i < whole.len() implies whole[i] != c by {
            if i < head.len() {
                assert(whole[i] == head[i]);
            } else if i > head.len() {
                assert(whole[i] == fields.last()[i - head.len() - 1]);
            }
        }
    }
}

/// The fields of a written row may stand in fields.
proof fn lemma_row_fields<R: NumberReader>(
    reader: R,
    row: WrittenRow,
    nums: Seq<Double>,
    layout: Layout,
)
    requires
        written(reader, row, nums, layout),
    ensures
        row_fields(row).len() == 7 + row.labels.len(),
        row_fields(row)[6] == code_of(row.kind),
        forall|c: int| 0 <= c < 6 ==> #[trigger] row_fields(row)[c] == row.texts[c],
        forall|c: int|
            0 <= c < row.labels.len() ==> row_fields(row)[7 + c] == #[trigger] row.labels[c],
        forall|c: int|
            0 <= c < row_fields(row).len() ==> is_field(#[trigger] row_fields(row)[c]),
{
    let fields = row_fields(row);
    assert forall|c: int| 0 <= c < fields.len() implies is_field(#[trigger] fields[c]) by {
        if c < 6 {
            assert(fields[c] == row.texts[c]);
        } else if c > 6 {
            assert(fields[c] == row.labels[c - 7]);
        }
    }
}

/// The text of a written row is a line.
proof fn lemma_row_is_a_line<R: NumberReader>(
    reader: R,
    row: WrittenRow,
    nums: Seq<Double>,
    layout: Layout,
)
    requires
        written(reader, row, nums, layout),
    ensures
        is_line(row_text(row)),
{
    lemma_row_fields(reader, row, nums, layout);
    let fields = row_fields(row);
    assert forall|c: int| 0 <= c < fields.len() implies !(#[trigger] fields[c]).contains('\n')
        && !fields[c].contains('\r') by {
        assert(is_field(fields[c]));
    }
    lemma_joined_holds(fields, ',', '\n');
    lemma_joined_holds(fields, ',', '\r');
    let line = row_text(row);
    if line.len() > 0 {
        assert(line.contains(line[line.len() - 1]));
    }
}

/// A written row reads back.
proof fn lemma_row_reads_back<R: NumberReader>(
    reader: R,
    row: WrittenRow,
    nums: Seq<Double>,
    layout: Layout,
    place: usize,
    r: Result<CsvRow, CsvError>,
)
    requires
        written(reader, row, nums, layout),
        row_parsed(reader, row_text(row), layout, place, r),
    ensures
        r matches Ok(v) && reads_back(row, nums, layout, v),
{
    lemma_row_fields(reader, row, nums, layout);
    let fields = row_fields(row);
    assert forall|c: int| 0 <= c < fields.len() implies !(#[trigger] fields[c]).contains(',') by {
        assert(is_field(fields[c]));
    }
    law_fields_come_back(fields, ',');
    let got = choose|got: Seq<Option<Double>>|
        #![trigger numbers_read(reader, fields, layout, got)]
        numbers_read(reader, fields, layout, got) && match row_fault(fields, got, layout, place) {
            Some(e) => r matches Err(f) && f == e,
            None => r matches Ok(v) && row_holds(fields, got, layout, v),
        };
    let columns = number_columns(layout);
    assert forall|c: int| 0 <= c < columns implies #[trigger] got[c] == Some(nums[c]) by {
        assert(fields[c] == row.texts[c]);
        assert(read_as(reader, row.texts[c], got[c]));
    }
    lemma_all_numbers(fields.len() as int, got, columns, place, 0);
    let letter = code_of(row.kind);
    assert(letter.len() == 1 && !is_space(letter[0]));
    assert(left_trimmed(letter) == letter);
    assert(right_trimmed(letter) == letter);
    assert(seq!['c'][0] != seq!['p'][0]);
    assert(kind_field(letter, layout.strict) == Some(row.kind));
    if layout.labels {
        assert(fields[7] == row.labels[0] && fields[8] == row.labels[1]);
    }
}

/// Where every column is there and holds a number there is no fault.
proof fn lemma_all_numbers(fields: int, nums: Seq<Option<Double>>, columns: int, row: usize, c: int)
    requires
        0 <= c,
        columns <= fields,
        forall|d: int| c <= d < columns ==> #[trigger] nums[d] is Some,
    ensures
        number_fault(fields, nums, columns, row, c) is None,
    decreases columns - c,
{
    if c < columns {
        lemma_all_numbers(fields, nums, columns, row, c + 1);
    }
}

/// The first thing wrong with the numbers of a row is what is reported: the first
/// column that is missing, or is there and holds no number. Nothing is wrong
/// exactly when every column is there and holds a number.
pub proof fn law_first_fault_is_reported(
    fields: int,
    nums: Seq<Option<Double>>,
    columns: int,
    row: usize,
    c: int,
)
    requires
        0 <= c <= columns <= 6,
    ensures
        match number_fault(fields, nums, columns, row, c) {
            None => forall|d: int| c <= d < columns ==> d < fields && #[trigger] nums[d] is Some,
            Some(CsvError::MissingField { row: r, column }) => {
                &&& r == row
                &&& c <= column < columns
                &&& column >= fields
                &&& forall|d: int| c <= d < column ==> d < fields && #[trigger] nums[d] is Some
            },
            Some(CsvError::BadNumber { row: r, column }) => {
                &&& r == row
                &&& c <= column < columns
                &&& column < fields
                &&& nums[column as int] is None
                &&& forall|d: int| c <= d < column ==> d < fields && #[trigger] nums[d] is Some
            },
            Some(CsvError::UnknownKind { .. }) => false,
        },
    decreases columns - c,
{
    if c < columns {
        law_first_fault_is_reported(fields, nums, columns, row, c + 1);
    }
}

/// A row is good exactly when its five numbers (six where the volatility is read)
/// are there and are numbers, its seventh field names a kind, and, where labels
/// are read, there are two fields more.
pub proof fn law_good_rows(
    fields: Seq<Seq<char>>,
    nums: Seq<Option<Double>>,
    layout: Layout,
    row: usize,
)
    ensures
        row_fault(fields, nums, layout, row) is None <==> {
            &&& forall|d: int|
                0 <= d < (if layout.sigma {
                    6int
                } else {
                    5int
                }) ==> d < fields.len() && #[trigger] nums[d] is Some
            &&& fields.len() >= 7
            &&& layout.labels ==> fields.len() >= 9
            &&& layout.strict ==> fields[6] == seq!['c'] || fields[6] == seq!['p']
        },
{
    let columns = if layout.sigma {
        6int
    } else {
        5int
    };
    law_first_fault_is_reported(fields.len() as int, nums, columns, row, 0);
}

/// Trimming takes white space off the ends and nothing else: what is left begins
/// and ends with no white space, and was between two runs of it.
pub proof fn law_trim_takes_white_space_only(s: Seq<char>)
    ensures
        trimmed(s).len() > 0 ==> !is_space(trimmed(s)[0]) && !is_space(trimmed(s).last()),
        exists|a: int, b: int|
            #![trigger s.subrange(a, b)]
            0 <= a <= b <= s.len() && trimmed(s) == s.subrange(a, b) && (forall|i: int|
                0 <= i < a || b <= i < s.len() ==> is_space(#[trigger] s[i])),
{
    let left = left_trimmed(s);
    let a = lemma_left_trimmed(s);
    let b = lemma_right_trimmed(left);
    assert(trimmed(s) =~= s.subrange(a, a + b));
    assert forall|i: int| 0 <= i < a || a + b <= i < s.len() implies is_space(#[trigger] s[i]) by {
        if i >= a + b {
            assert(left[i - a] == s[i]);
        }
    }
    if trimmed(s).len() > 0 {
        assert(trimmed(s)[0] == left[0]);
    }
}

/// How many characters are trimmed off the left.
proof fn lemma_left_trimmed(s: Seq<char>) -> (a: int)
    ensures
        0 <= a <= s.len(),
        left_trimmed(s) == s.skip(a),
        forall|i: int| 0 <= i < a ==> is_space(#[trigger] s[i]),
        a < s.len() ==> !is_space(s[a]),
    decreases s.len(),
{
    if s.len() > 0 && is_space(s[0]) {
        let shorter = s.drop_first();
        let b = lemma_left_trimmed(shorter);
        assert(shorter.skip(b) =~= s.skip(b + 1));
        assert forall|i: int| 0 <= i < b + 1 implies is_space(#[trigger] s[i]) by {
            if i > 0 {
                assert(shorter[i - 1] == s[i]);
            }
        }
        b + 1
    } else {
        assert(s.skip(0) =~= s);
        0
    }
}

/// How many characters are left when the right is trimmed.
proof fn lemma_right_trimmed(s: Seq<char>) -> (b: int)
    ensures
        0 <= b <= s.len(),
        right_trimmed(s) == s.take(b),
        forall|i: int| b <= i < s.len() ==> is_space(#[trigger] s[i]),
        b > 0 ==> !is_space(s[b - 1]),
    decreases s.len(),
{
    if s.len() > 0 && is_space(s.last()) {
        let shorter = s.drop_last();
        let b = lemma_right_trimmed(shorter);
        assert(shorter.take(b) =~= s.take(b));
        assert forall|i: int| b <= i < s.len() implies is_space(#[trigger] s[i]) by {
            if i < s.len() - 1 {
                assert(shorter[i] == s[i]);
            }
        }
        b
    } else {
        assert(s.take(s.len() as int) =~= s);
        s.len() as int
    }
}

/// A field names a kind: strictly, `c` and `p` do and nothing else; else `c`
/// between white space names a call, and everything else a put.
pub proof fn law_kind_field(field: Seq<char>)
    ensures
        kind_field(field, true) == Some(OptionKind::Call) <==> field == seq!['c'],
        kind_field(field, true) == Some(OptionKind::Put) <==> field == seq!['p'],
        kind_field(field, false) == Some(OptionKind::Call) <==> trimmed(field) == seq!['c'],
        kind_field(field, false) == Some(OptionKind::Put) <==> trimmed(field) != seq!['c'],
{
    assert(seq!['c'][0] != seq!['p'][0]);
}

/// The argument of a flag stands right behind the first of that flag.
pub proof fn law_flag_takes_what_follows(args: Seq<Seq<char>>, flag: Seq<char>)
    ensures
        match value_place(args, flag) {
            Some(p) => {
                &&& 1 <= p < args.len()
                &&& args[p - 1] == flag
                &&& forall|i: int| 0 <= i < p - 1 ==> #[trigger] args[i] != flag
            },
            None => forall|i: int| 0 <= i < args.len() - 1 ==> #[trigger] args[i] != flag,
        },
{
    lemma_first_flag(args, flag, args.len() as int);
}

/// The place of a flag is the first of it.
proof fn lemma_first_flag(args: Seq<Seq<char>>, flag: Seq<char>, n: int)
    requires
        0 <= n <= args.len(),
    ensures
        match flag_place(args, flag, n) {
            Some(p) => {
                &&& 0 <= p < n
                &&& args[p] == flag
                &&& forall|i: int| 0 <= i < p ==> #[trigger] args[i] != flag
            },
            None => forall|i: int| 0 <= i < n ==> #[trigger] args[i] != flag,
        },
    decreases n,
{
    if n > 0 {
        lemma_first_flag(args, flag, n - 1);
    }
}

} // verus!
