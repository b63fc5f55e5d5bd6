//! Comma-separated lines: building them cell by cell, and splitting them again.

use crate::text::{decimal, digits, push_i64, push_u64, push_zero_padded, zero_padded};
use vstd::prelude::*;
use vstd::string::*;

verus! {

/// The cells with a comma between each two.
pub open spec fn join(cells: Seq<Seq<char>>) -> Seq<char>
    decreases cells.len(),
{
    if cells.len() == 0 {
        Seq::empty()
    } else if cells.len() == 1 {
        cells[0]
    } else {
        join(cells.drop_last()).push(',') + cells.last()
    }
}

/// What stands between the commas of a line. A line without any has one cell.
pub open spec fn split(line: Seq<char>) -> Seq<Seq<char>> {
    split_by(line, ',')
}

/// What stands between the separators of a line. A line without any has one part.
pub open spec fn split_by(line: Seq<char>, sep: char) -> Seq<Seq<char>>
    decreases line.len(),
{
    if line.len() == 0 {
        seq![Seq::empty()]
    } else {
        let before = split_by(line.drop_last(), sep);
        if line.last() == sep {
            before.push(Seq::empty())
        } else {
            before.drop_last().push(before.last().push(line.last()))
        }
    }
}

/// Whether a text has no comma.
pub open spec fn is_cell(s: Seq<char>) -> bool {
    forall|i: int| 0 <= i < s.len() ==> #[trigger] s[i] != ','
}

/// Whether all texts are without a comma.
pub open spec fn are_cells(cells: Seq<Seq<char>>) -> bool {
    forall|i: int| 0 <= i < cells.len() ==> is_cell(#[trigger] cells[i])
}

/// The texts of a list.
pub open spec fn texts(v: Seq<Vec<char>>) -> Seq<Seq<char>> {
    v.map_values(|c: Vec<char>| c@)
}

/// Splits a line at its commas.
pub fn split_line(line: &Vec<char>) -> (cells: Vec<Vec<char>>)
    ensures
        texts(cells@) == split(line@),
        cells@.len() >= 1,
{
    split_chars(line, ',')
}

/// Splits a line at its separators.
pub fn split_chars(line: &Vec<char>, sep: char) -> (cells: Vec<Vec<char>>)
    ensures
        texts(cells@) == split_by(line@, sep),
        cells@.len() >= 1,
{
    let mut cells: Vec<Vec<char>> = Vec::new();
    let mut current: Vec<char> = Vec::new();
    let mut i: usize = 0;
    assert(line@.take(0) =~= Seq::empty());
    assert(texts(cells@).push(current@) =~= split_by(line@.take(0), sep));
    while i < line.len()
        invariant
            i <= line@.len(),
            texts(cells@).push(current@) == split_by(line@.take(i as int), sep),
        decreases line@.len() - i,
    {
        let c: char = line[i];
        let ghost before = texts(cells@);
        let ghost cell = current@;
        proof {
            let longer = line@.take(i + 1);
            assert(longer.drop_last() =~= line@.take(i as int));
            assert(longer.last() == c);
            assert(before.push(cell).drop_last() =~= before);
        }
        if c == sep {
            cells.push(current);
            current = Vec::new();
            assert(texts(cells@) =~= before.push(cell));
            assert(current@ =~= Seq::empty());
        } else {
            current.push(c);
        }
        i = i + 1;
    }
    assert(line@.take(i as int) =~= line@);
    let ghost before = texts(cells@);
    let ghost cell = current@;
    cells.push(current);
    assert(texts(cells@) =~= before.push(cell));
    cells
}

/// A line under construction.
pub struct Row {
    text: String,
    started: bool,
    cells: Ghost<Seq<Seq<char>>>,
}

impl View for Row {
    type V = Seq<Seq<char>>;

    /// The cells so far.
    closed spec fn view(&self) -> Seq<Seq<char>> {
        self.cells@
    }
}

impl Row {
    /// Whether the text is the cells joined.
    pub closed spec fn inv(&self) -> bool {
        self.text@ == join(self.cells@) && self.started == (self.cells@.len() > 0)
    }

    /// A line without cells.
    pub fn new() -> (r: Row)
        ensures
            r.inv(),
            r@ == Seq::<Seq<char>>::empty(),
    {
        Row { text: String::new(), started: false, cells: Ghost(Seq::empty()) }
    }

    /// The finished line.
    pub fn finish(self) -> (line: String)
        requires
            self.inv(),
        ensures
            line@ == join(self@),
    {
        self.text
    }

    /// Puts a comma where the line has a cell already.
    fn open_cell(&mut self)
        requires
            old(self).inv(),
        ensures
            final(self).cells == old(self).cells,
            final(self).started,
            forall|cell: Seq<char>|
                final(self).text@ + cell == #[trigger] join(old(self).cells@.push(cell)),
    {
        if self.started {
            proof {
                reveal_strlit(",");
            }
            self.text.append(",");
        } else {
            self.started = true;
        }
        assert forall|cell: Seq<char>| self.text@ + cell == #[trigger] join(
            self.cells@.push(cell),
        ) by {
            assert(self.cells@.push(cell).drop_last() =~= self.cells@);
            assert(self.text@ + cell =~= join(self.cells@.push(cell)));
        }
    }

    /// Adds a text.
    pub fn add_text(&mut self, s: &str)
        requires
            old(self).inv(),
        ensures
            final(self).inv(),
            final(self)@ == old(self)@.push(s@),
    {
        self.open_cell();
        self.text.append(s);
        proof {
            self.cells@ = self.cells@.push(s@);
        }
    }

    /// Adds a number in decimal.
    pub fn add_u64(&mut self, n: u64)
        requires
            old(self).inv(),
        ensures
            final(self).inv(),
            final(self)@ == old(self)@.push(decimal(n as int)),
    {
        self.open_cell();
        push_u64(&mut self.text, n);
        proof {
            self.cells@ = self.cells@.push(decimal(n as int));
        }
    }

    /// Adds a number in decimal.
    pub fn add_i64(&mut self, n: i64)
        requires
            old(self).inv(),
        ensures
            final(self).inv(),
            final(self)@ == old(self)@.push(decimal(n as int)),
    {
        self.open_cell();
        push_i64(&mut self.text, n);
        proof {
            self.cells@ = self.cells@.push(decimal(n as int));
        }
    }

    /// Adds a number in hexadecimal, with `0x` and at least four digits.
    pub fn add_hex(&mut self, n: u64)
        requires
            old(self).inv(),
        ensures
            final(self).inv(),
            final(self)@ == old(self)@.push(hex_cell(n)),
    {
        self.open_cell();
        let ghost before = self.text@;
        self.text.append("0x");
        push_zero_padded(&mut self.text, n, 16, 4);
        proof {
            assert(before + "0x"@ + zero_padded(digits(n as nat, 16), 4) =~= before + hex_cell(n));
            self.cells@ = self.cells@.push(hex_cell(n));
        }
    }

    /// Adds a number in binary, with at least `width` digits.
    pub fn add_binary(&mut self, n: u64, width: u64)
        requires
            old(self).inv(),
        ensures
            final(self).inv(),
            final(self)@ == old(self)@.push(zero_padded(digits(n as nat, 2), width as nat)),
    {
        self.open_cell();
        push_zero_padded(&mut self.text, n, 2, width);
        proof {
            self.cells@ = self.cells@.push(zero_padded(digits(n as nat, 2), width as nat));
        }
    }

    /// Adds `prefix`, a number in decimal, and `suffix` as one cell.
    pub fn add_numbered(&mut self, prefix: &str, n: u64, suffix: &str)
        requires
            old(self).inv(),
        ensures
            final(self).inv(),
            final(self)@ == old(self)@.push(prefix@ + decimal(n as int) + suffix@),
    {
        self.open_cell();
        let ghost before = self.text@;
        self.text.append(prefix);
        push_u64(&mut self.text, n);
        self.text.append(suffix);
        proof {
            let cell = prefix@ + decimal(n as int) + suffix@;
            assert(before + prefix@ + decimal(n as int) + suffix@ =~= before + cell);
            self.cells@ = self.cells@.push(cell);
        }
    }
}

/// A number in hexadecimal, with `0x` and at least four digits.
pub open spec fn hex_cell(n: u64) -> Seq<char> {
    "0x"@ + zero_padded(digits(n as nat, 16), 4)
}

/// Splitting a line of cells without commas gives the cells back.
pub proof fn law_split_undoes_join(cells: Seq<Seq<char>>)
    requires
        cells.len() > 0,
        are_cells(cells),
    ensures
        split(join(cells)) == cells,
    decreases cells.len(),
{
    let last = cells.last();
    assert(is_cell(cells[cells.len() - 1]));
    if cells.len() == 1 {
        lemma_split_extends(Seq::empty(), last);
        assert(Seq::<char>::empty() + last =~= last);
        assert(Seq::<char>::empty() + last =~= cells[0]);
        assert(split(join(cells)) =~= cells);
    } else {
        let rest = cells.drop_last();
        assert forall|i: int| 0 <= i < rest.len() implies is_cell(#[trigger] rest[i]) by {
            assert(rest[i] == cells[i]);
        }
        law_split_undoes_join(rest);
        let head = join(rest).push(',');
        assert(head.drop_last() =~= join(rest));
        assert(split(head) == rest.push(Seq::empty()));
        lemma_split_extends(head, last);
        assert(rest.push(Seq::<char>::empty()).drop_last() =~= rest);
        assert(Seq::<char>::empty() + last =~= last);
        assert(split(join(cells)) =~= cells);
    }
}

/// Text without commas goes to the last cell.
proof fn lemma_split_extends(line: Seq<char>, more: Seq<char>)
    requires
        is_cell(more),
    ensures
        split(line).len() > 0,
        split(line + more) == split(line).drop_last().push(split(line).last() + more),
    decreases more.len(),
{
    lemma_split_not_empty(line);
    let base = split(line);
    if more.len() == 0 {
        assert(line + more =~= line);
        assert(base.last() + more =~= base.last());
        assert(base.drop_last().push(base.last()) =~= base);
    } else {
        let rest = more.drop_last();
        assert forall|i: int| 0 <= i < rest.len() implies #[trigger] rest[i] != ',' by {
            assert(rest[i] == more[i]);
        }
        lemma_split_extends(line, rest);
        let c = more.last();
        assert(more[more.len() - 1] != ',');
        assert((line + more).drop_last() =~= line + rest);
        assert((line + more).last() == c);
        let before = split(line + rest);
        assert(before.drop_last() =~= base.drop_last());
        assert(before.last() == base.last() + rest);
        assert((base.last() + rest).push(c) =~= base.last() + more);
    }
}

/// The first cell of a line ends at the first comma, whatever the other cells hold.
pub proof fn law_first_cell_is_kept(cells: Seq<Seq<char>>)
    requires
        cells.len() > 0,
        is_cell(cells[0]),
    ensures
        split(join(cells))[0] == cells[0],
{
    lemma_join_begins(cells);
    lemma_split_begins(join(cells), cells[0]);
}

/// A line of cells begins with the first one, and a comma behind it where there are more.
proof fn lemma_join_begins(cells: Seq<Seq<char>>)
    requires
        cells.len() > 0,
    ensures
        cells[0].is_prefix_of(join(cells)),
        join(cells).len() > cells[0].len() ==> join(cells)[cells[0].len() as int] == ',',
    decreases cells.len(),
{
    if cells.len() > 1 {
        let rest = cells.drop_last();
        lemma_join_begins(rest);
        let n = cells[0].len() as int;
        assert(join(cells).take(n) =~= join(rest).take(n));
    }
}

/// The first cell of a line is what stands before its first comma.
proof fn lemma_split_begins(line: Seq<char>, first: Seq<char>)
    requires
        is_cell(first),
        first.is_prefix_of(line),
        line.len() > first.len() ==> line[first.len() as int] == ',',
    ensures
        split(line)[0] == first,
        split(line).len() == 1 <==> line.len() == first.len(),
    decreases line.len(),
{
    let n = first.len() as int;
    if line.len() == n {
        assert(line =~= first);
        lemma_split_extends(Seq::empty(), first);
        assert(Seq::<char>::empty() + first =~= first);
        assert(split(line) =~= seq![first]);
    } else {
        let before = line.drop_last();
        assert(before.take(n) =~= line.take(n));
        lemma_split_not_empty(before);
        lemma_split_begins(before, first);
    }
}

proof fn lemma_split_not_empty(line: Seq<char>)
    ensures
        split(line).len() > 0,
    decreases line.len(),
{
    if line.len() > 0 {
        lemma_split_not_empty(line.drop_last());
    }
}

/// Joining puts one comma between each two cells and nothing else: a further cell adds a comma and
/// the cell, and a single one is the line.
pub proof fn law_join_adds_commas(cells: Seq<Seq<char>>, cell: Seq<char>)
    ensures
        join(Seq::empty()) == Seq::<char>::empty(),
        join(seq![cell]) == cell,
        cells.len() > 0 ==> join(cells.push(cell)) == join(cells) + seq![','] + cell,
{
    assert(join(Seq::<Seq<char>>::empty()) == Seq::<char>::empty());
    assert(seq![cell][0] == cell);
    if cells.len() > 0 {
        assert(cells.push(cell).drop_last() =~= cells);
        assert(join(cells).push(',') =~= join(cells) + seq![',']);
    }
}

/// Splitting cuts at every separator and nowhere else: the parts of two lines with a separator
/// between them are those of the first, then those of the second, and a line without separators is
/// its only part.
pub proof fn law_split_cuts_at_separators(a: Seq<char>, b: Seq<char>, sep: char)
    ensures
        split_by(a + seq![sep] + b, sep) == split_by(a, sep) + split_by(b, sep),
        (forall|i: int| 0 <= i < b.len() ==> #[trigger] b[i] != sep) ==> split_by(b, sep) == seq![b],
        split(a) == split_by(a, ','),
    decreases b.len(),
{
    let head = split_by(a, sep);
    let line = a + seq![sep] + b;
    lemma_parts_not_empty(b, sep);
    if b.len() == 0 {
        assert(line.drop_last() =~= a);
        assert(line.last() == sep);
        assert(split_by(b, sep) =~= seq![Seq::<char>::empty()]);
        assert(head.push(Seq::empty()) =~= head + seq![Seq::<char>::empty()]);
        assert(b =~= Seq::<char>::empty());
    } else {
        let rest = b.drop_last();
        law_split_cuts_at_separators(a, rest, sep);
        lemma_parts_not_empty(rest, sep);
        assert(line.drop_last() =~= a + seq![sep] + rest);
        assert(line.last() == b.last());
        let tail = split_by(rest, sep);
        if b.last() == sep {
            assert((head + tail).push(Seq::empty()) =~= head + tail.push(Seq::empty()));
        } else {
            assert((head + tail).drop_last() =~= head + tail.drop_last());
            assert((head + tail).last() == tail.last());
            assert((head + tail.drop_last()).push(tail.last().push(b.last())) =~= head
                + tail.drop_last().push(tail.last().push(b.last())));
        }
        if forall|i: int| 0 <= i < b.len() ==> #[trigger] b[i] != sep {
            assert forall|i: int| 0 <= i < rest.len() implies #[trigger] rest[i] != sep by {
                assert(rest[i] == b[i]);
            }
            assert(b[b.len() - 1] != sep);
            assert(tail == seq![rest]);
            assert(rest.push(b.last()) =~= b);
            assert(tail.drop_last().push(tail.last().push(b.last())) =~= seq![b]);
        }
    }
}

proof fn lemma_parts_not_empty(line: Seq<char>, sep: char)
    ensures
        split_by(line, sep).len() > 0,
    decreases line.len(),
{
    if line.len() > 0 {
        lemma_parts_not_empty(line.drop_last(), sep);
    }
}

} // verus!
