use vstd::prelude::*;

verus! {

/// A child node of a table cell, as far as row extraction looks into it.
#[derive(Clone, Debug)]
pub enum CellNode {
    /// A text node, with its text.
    Text(String),
    /// An element (a link wrapping a name, say): for each of its own children, the text
    /// if that child is a text node, `None` otherwise.
    Element(Vec<Option<String>>),
}

/// The fields of a record, in schema order: company name, stock symbol, sector,
/// subsector and listing date.
#[derive(Clone, Debug)]
pub struct CompanyRecord {
    pub company_name: String,
    pub stock_symbol: String,
    pub sector: String,
    pub subsector: String,
    pub listing_date: String,
}

impl View for CompanyRecord {
    type V = Seq<Seq<char>>;

    /// The five field values in schema order.
    open spec fn view(&self) -> Seq<Seq<char>> {
        seq![self.company_name@, self.stock_symbol@, self.sector@, self.subsector@, self.listing_date@]
    }
}

/// Number of fields in the header schema.
pub const FIELD_COUNT: usize = 5;

/// The labels of the header schema, in order.
pub open spec fn header_labels() -> Seq<Seq<char>> {
    seq!["Company Name"@, "Stock Symbol"@, "Sector"@, "Subsector"@, "Listing Date"@]
}

pub open spec fn views(v: Seq<String>) -> Seq<Seq<char>> {
    v.map_values(|s: String| s@)
}

pub open spec fn record_views(v: Seq<CompanyRecord>) -> Seq<Seq<Seq<char>>> {
    v.map_values(|c: CompanyRecord| c@)
}

/// The texts of an element's text children, in order.
pub open spec fn child_texts(kids: Seq<Option<String>>) -> Seq<Seq<char>>
    decreases kids.len(),
{
    if kids.len() == 0 {
        Seq::empty()
    } else {
        match kids.last() {
            Some(t) => child_texts(kids.drop_last()).push(t@),
            None => child_texts(kids.drop_last()),
        }
    }
}

/// The fragments one child of a cell yields: its text, or the texts one level below it.
pub open spec fn node_fragments(n: CellNode) -> Seq<Seq<char>> {
    match n {
        CellNode::Text(t) => seq![t@],
        CellNode::Element(kids) => child_texts(kids@),
    }
}

pub open spec fn cell_fragments(cell: Seq<CellNode>) -> Seq<Seq<char>>
    decreases cell.len(),
{
    if cell.len() == 0 {
        Seq::empty()
    } else {
        cell_fragments(cell.drop_last()) + node_fragments(cell.last())
    }
}

/// The fragments of a table row, cell after cell.
pub open spec fn row_fragments(row: Seq<Vec<CellNode>>) -> Seq<Seq<char>>
    decreases row.len(),
{
    if row.len() == 0 {
        Seq::empty()
    } else {
        row_fragments(row.drop_last()) + cell_fragments(row.last()@)
    }
}

/// The record a row of fragments gives: field `i` takes fragment `i`, or the empty
/// text where the row is shorter; fragments past the last field are dropped.
pub open spec fn record_of(row: Seq<Seq<char>>) -> Seq<Seq<char>> {
    Seq::new(FIELD_COUNT as nat, |i: int| if i < row.len() { row[i] } else { Seq::empty() })
}

/// The records of a sequence of rows, in order, leaving out rows equal to the header.
pub open spec fn records_of(rows: Seq<Seq<Seq<char>>>) -> Seq<Seq<Seq<char>>>
    decreases rows.len(),
{
    if rows.len() == 0 {
        Seq::empty()
    } else if rows.last() == header_labels() {
        records_of(rows.drop_last())
    } else {
        records_of(rows.drop_last()).push(record_of(rows.last()))
    }
}

pub open spec fn rows_fragments(rows: Seq<Vec<Vec<CellNode>>>) -> Seq<Seq<Seq<char>>> {
    rows.map_values(|r: Vec<Vec<CellNode>>| row_fragments(r@))
}

proof fn lemma_views_push(v: Seq<String>, s: String)
    ensures
        views(v.push(s)) == views(v).push(s@),
{
    assert(views(v.push(s)) =~= views(v).push(s@));
}

fn append_child_texts(kids: &Vec<Option<String>>, out: &mut Vec<String>)
    ensures
        views(final(out)@) == views(old(out)@) + child_texts(kids@),
{
    let mut i: usize = 0;
    while i < kids.len()
        invariant
            i <= kids@.len(),
            views(out@) == views(old(out)@) + child_texts(kids@.subrange(0, i as int)),
        decreases kids@.len() - i,
    {
        assert(kids@.subrange(0, i + 1).drop_last() == kids@.subrange(0, i as int));
        match &kids[i] {
            Some(t) => {
                let c = t.clone();
                proof {
                    lemma_views_push(out@, c);
                }
                out.push(c);
            },
            None => {},
        }
        i = i + 1;
    }
    assert(kids@.subrange(0, kids@.len() as int) == kids@);
}

fn append_cell(cell: &Vec<CellNode>, out: &mut Vec<String>)
    ensures
        views(final(out)@) == views(old(out)@) + cell_fragments(cell@),
{
    let mut i: usize = 0;
    while i < cell.len()
        invariant
            i <= cell@.len(),
            views(out@) == views(old(out)@) + cell_fragments(cell@.subrange(0, i as int)),
        decreases cell@.len() - i,
    {
        assert(cell@.subrange(0, i + 1).drop_last() == cell@.subrange(0, i as int));
        let ghost before = out@;
        match &cell[i] {
            CellNode::Text(t) => {
                let c = t.clone();
                proof {
                    lemma_views_push(out@, c);
                }
                out.push(c);
            },
            CellNode::Element(kids) => {
                append_child_texts(kids, out);
            },
        }
        assert(views(out@) == views(before) + node_fragments(cell@[i as int]));
        assert(views(out@) =~= views(old(out)@) + cell_fragments(cell@.subrange(0, i + 1)));
        i = i + 1;
    }
    assert(cell@.subrange(0, cell@.len() as int) == cell@);
}

/// The text fragments of a table row: for each cell, the text of each text child,
/// and the text children of each element child.
pub fn extract_fragments(row: &Vec<Vec<CellNode>>) -> (r: Vec<String>)
    ensures
        views(r@) == row_fragments(row@),
{
    let mut out: Vec<String> = Vec::new();
    let mut i: usize = 0;
    assert(views(out@) =~= Seq::<Seq<char>>::empty());
    while i < row.len()
        invariant
            i <= row@.len(),
            views(out@) == row_fragments(row@.subrange(0, i as int)),
        decreases row@.len() - i,
    {
        assert(row@.subrange(0, i + 1).drop_last() == row@.subrange(0, i as int));
        append_cell(&row[i], &mut out);
        i = i + 1;
    }
    assert(row@.subrange(0, row@.len() as int) == row@);
    out
}

fn field_at(row: &Vec<String>, i: usize) -> (r: String)
    ensures
        r@ == (if i < row@.len() { row@[i as int]@ } else { Seq::empty() }),
{
    if i < row.len() {
        row[i].clone()
    } else {
        String::new()
    }
}

/// Binds the fragments of a row to the schema fields by position, padding with empty
/// text and dropping extra fragments.
pub fn assemble(row: &Vec<String>) -> (r: CompanyRecord)
    ensures
        r@ == record_of(views(row@)),
{
    let r = CompanyRecord {
        company_name: field_at(row, 0),
        stock_symbol: field_at(row, 1),
        sector: field_at(row, 2),
        subsector: field_at(row, 3),
        listing_date: field_at(row, 4),
    };
    assert(r@ =~= record_of(views(row@)));
    r
}

/// The header labels as strings.
pub fn header_row() -> (r: Vec<String>)
    ensures
        views(r@) == header_labels(),
{
    let r = vec![
        String::from_str("Company Name"),
        String::from_str("Stock Symbol"),
        String::from_str("Sector"),
        String::from_str("Subsector"),
        String::from_str("Listing Date"),
    ];
    assert(views(r@) =~= header_labels());
    r
}

/// Whether a row's fragments are exactly the header labels.
pub fn is_header(frags: &Vec<String>) -> (r: bool)
    ensures
        r == (views(frags@) == header_labels()),
{
    let h = header_row();
    if frags.len() != h.len() {
        assert(views(frags@).len() != header_labels().len());
        return false;
    }
    let mut i: usize = 0;
    while i < h.len()
        invariant
            i <= h@.len() == frags@.len(),
            views(h@) == header_labels(),
            forall|j: int| 0 <= j < i ==> #[trigger] frags@[j]@ == h@[j]@,
        decreases h@.len() - i,
    {
        if frags[i] != h[i] {
            assert(views(frags@)[i as int] != header_labels()[i as int]);
            return false;
        }
        i = i + 1;
    }
    assert(views(frags@) =~= header_labels());
    true
}

/// A row of exactly five fragments binds each fragment to its field, with no padding.
pub proof fn lemma_full_row(row: Seq<Seq<char>>)
    requires
        row.len() == FIELD_COUNT,
    ensures
        record_of(row) == row,
{
    assert(record_of(row) =~= row);
}

/// In a record from a shorter row, the fields past the row's end are empty and the
/// others hold the row's fragments.
pub proof fn lemma_short_row_padded(row: Seq<Seq<char>>)
    requires
        row.len() < FIELD_COUNT,
    ensures
        record_of(row).len() == FIELD_COUNT,
        forall|i: int| 0 <= i < row.len() ==> #[trigger] record_of(row)[i] == row[i],
        forall|i: int| row.len() <= i < FIELD_COUNT ==> #[trigger] record_of(row)[i] == Seq::<char>::empty(),
{
}

/// A record from a longer row holds its first five fragments only.
pub proof fn lemma_long_row_truncated(row: Seq<Seq<char>>)
    requires
        row.len() > FIELD_COUNT,
    ensures
        record_of(row) == row.subrange(0, FIELD_COUNT as int),
{
    assert(record_of(row) =~= row.subrange(0, FIELD_COUNT as int));
}

/// The records of two runs of rows, one after the other, are those of each run.
pub proof fn lemma_records_concat(a: Seq<Seq<Seq<char>>>, b: Seq<Seq<Seq<char>>>)
    ensures
        records_of(a + b) == records_of(a) + records_of(b),
    decreases b.len(),
{
    if b.len() == 0 {
        assert(a + b =~= a);
        assert(records_of(a) + records_of(b) =~= records_of(a));
    } else {
        lemma_records_concat(a, b.drop_last());
        assert((a + b).drop_last() =~= a + b.drop_last());
        assert((a + b).last() == b.last());
        if b.last() != header_labels() {
            assert(records_of(a) + records_of(b.drop_last()).push(record_of(b.last())) =~= (
            records_of(a) + records_of(b.drop_last())).push(record_of(b.last())));
        }
    }
}

/// A row equal to the header labels gives no record, wherever it stands among the rows.
pub proof fn lemma_header_row_dropped(a: Seq<Seq<Seq<char>>>, b: Seq<Seq<Seq<char>>>)
    ensures
        records_of(a + seq![header_labels()] + b) == records_of(a) + records_of(b),
{
    lemma_records_concat(a + seq![header_labels()], b);
    let h = a + seq![header_labels()];
    assert(h.drop_last() =~= a);
}

/// The records of the given table rows, in order, leaving out header rows.
pub fn records_from_rows(rows: &Vec<Vec<Vec<CellNode>>>) -> (r: Vec<CompanyRecord>)
    ensures
        record_views(r@) == records_of(rows_fragments(rows@)),
{
    let mut out: Vec<CompanyRecord> = Vec::new();
    let mut i: usize = 0;
    assert(record_views(out@) =~= Seq::<Seq<Seq<char>>>::empty());
    while i < rows.len()
        invariant
            i <= rows@.len(),
            record_views(out@) == records_of(rows_fragments(rows@.subrange(0, i as int))),
        decreases rows@.len() - i,
    {
        let ghost pre = rows_fragments(rows@.subrange(0, i as int));
        let ghost cur = rows_fragments(rows@.subrange(0, i + 1));
        assert(cur.drop_last() =~= pre);
        let frags = extract_fragments(&rows[i]);
        assert(cur.last() == views(frags@));
        if !is_header(&frags) {
            let rec = assemble(&frags);
            assert(record_views(out@.push(rec)) =~= record_views(out@).push(rec@));
            out.push(rec);
        }
        i = i + 1;
    }
    assert(rows@.subrange(0, rows@.len() as int) == rows@);
    out
}

} // verus!
