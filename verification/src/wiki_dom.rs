use vstd::prelude::*;
use vstd::string::StringExecFns;
use crate::config::copy_string;
use crate::migration::text_view;
use crate::stratagems::{
    blocks_fold, column_index, command_of, image_url_of, name_of, names_column, row_item, rows_items,
    table_items, texts, WikiBlock, WikiCell, WikiImage,
};
use crate::toml_tree::str_eq;

verus! {

/// A node of a parsed HTML document, as the wiki content is read from it.
/// The nodes of a document are listed in tree order (each node before its
/// descendants, siblings in order), so the subtree of a node is the run of
/// `size` nodes starting at it.
pub struct DomNode {
    /// The local name of an element; none for any other node.
    pub name: Option<String>,
    /// The classes of an element.
    pub classes: Vec<String>,
    /// The attributes of an element: local name and value.
    pub attributes: Vec<(String, String)>,
    /// The text of a text node; none for any other node.
    pub text: Option<String>,
    /// How many ancestors the node has.
    pub depth: usize,
    /// How many nodes its subtree holds, itself included.
    pub size: usize,
}

/// A node as plain values.
pub struct DomNodeView {
    pub name: Option<Seq<char>>,
    pub classes: Seq<Seq<char>>,
    pub attributes: Seq<(Seq<char>, Seq<char>)>,
    pub text: Option<Seq<char>>,
    pub depth: usize,
    pub size: usize,
}

/// The plain values of a node.
pub open spec fn node_view(n: DomNode) -> DomNodeView {
    DomNodeView {
        name: text_view(n.name),
        classes: texts(n.classes),
        attributes: n.attributes@.map_values(|a: (String, String)| (a.0@, a.1@)),
        text: text_view(n.text),
        depth: n.depth,
        size: n.size,
    }
}

/// The plain values of a list of nodes.
pub open spec fn nodes_view(v: Vec<DomNode>) -> Seq<DomNodeView> {
    v@.map_values(|n: DomNode| node_view(n))
}

/// The nodes, in tree order, of the document that
/// `scraper::Html::parse_document` builds from `html`.
pub uninterp spec fn html_dom(html: Seq<char>) -> Seq<DomNodeView>;

/// Parses an HTML document.
///
/// Calls `scraper::Html::parse_document` and lists the nodes of its tree
/// in tree order (`descendants` of the root), each with its element name,
/// classes and attributes, or its text, and with the counts of its
/// ancestors and of its subtree. The contract names the document that the
/// text gives and claims nothing more of it.
#[verifier::external_body]
fn parse_html_dom(html: &str) -> (r: Vec<DomNode>)
    ensures
        nodes_view(r) == html_dom(html@),
{
    let doc = scraper::Html::parse_document(html);
    doc.tree.root().descendants().map(|n| {
        let el = n.value().as_element();
        DomNode {
            name: el.map(|e| e.name().into()),
            classes: el.into_iter().flat_map(|e| e.classes()).map(Into::into).collect(),
            attributes: el.into_iter().flat_map(|e| e.attrs()).map(|(k, v)| (k.into(), v.into())).collect(),
            text: n.value().as_text().map(|t| t.to_string()),
            depth: n.ancestors().count(),
            size: n.descendants().count(),
        }
    }).collect()
}


/// The end of the subtree of node `i`: the index after its last
/// descendant, within the document.
pub open spec fn end_of(d: Seq<DomNodeView>, i: int) -> int {
    if i + d[i].size > d.len() {
        d.len() as int
    } else {
        i + d[i].size
    }
}

/// Which nodes a search picks.
pub enum Pick {
    /// The elements with this local name.
    Named(Seq<char>),
    /// The elements with this class.
    Classed(Seq<char>),
    /// The elements one level below a node at this depth.
    ChildElement(int),
    /// The `th` and `td` elements one level below a node at this depth.
    ChildCell(int),
}

/// Whether a search picks the node `n`.
pub open spec fn picks(p: Pick, n: DomNodeView) -> bool {
    match p {
        Pick::Named(t) => n.name == Some(t),
        Pick::Classed(c) => n.name is Some && n.classes.contains(c),
        Pick::ChildElement(dep) => n.name is Some && n.depth == dep + 1,
        Pick::ChildCell(dep) => n.depth == dep + 1 && (n.name == Some("th"@) || n.name == Some(
            "td"@,
        )),
    }
}

/// The first node from `lo` up to `hi` that a search picks.
pub open spec fn first_index(d: Seq<DomNodeView>, lo: int, hi: int, p: Pick) -> Option<int>
    decreases hi - lo,
{
    if lo >= hi {
        None
    } else if picks(p, d[lo]) {
        Some(lo)
    } else {
        first_index(d, lo + 1, hi, p)
    }
}

/// The texts of the text nodes from `lo` up to `hi`, in order.
pub open spec fn texts_in(d: Seq<DomNodeView>, lo: int, hi: int) -> Seq<Seq<char>>
    decreases hi - lo,
{
    if hi <= lo {
        Seq::empty()
    } else {
        let rest = texts_in(d, lo, hi - 1);
        match d[hi - 1].text {
            Some(t) => rest.push(t),
            None => rest,
        }
    }
}

/// The value of the first attribute named `key`.
pub open spec fn attr_of(attrs: Seq<(Seq<char>, Seq<char>)>, key: Seq<char>) -> Option<Seq<char>>
    decreases attrs.len(),
{
    if attrs.len() == 0 {
        None
    } else if attrs[0].0 == key {
        Some(attrs[0].1)
    } else {
        attr_of(attrs.drop_first(), key)
    }
}

/// The alternative texts of the images from `lo` up to `hi` that have
/// one, in order.
pub open spec fn alts_in(d: Seq<DomNodeView>, lo: int, hi: int) -> Seq<Seq<char>>
    decreases hi - lo,
{
    if hi <= lo {
        Seq::empty()
    } else {
        let rest = alts_in(d, lo, hi - 1);
        if d[hi - 1].name == Some("img"@) {
            match attr_of(d[hi - 1].attributes, "alt"@) {
                Some(a) => rest.push(a),
                None => rest,
            }
        } else {
            rest
        }
    }
}

/// The addresses of an image as plain values.
pub struct ImageView {
    pub src: Option<Seq<char>>,
    pub data_src: Option<Seq<char>>,
    pub srcset: Option<Seq<char>>,
}

/// A table cell as plain values.
pub struct CellView {
    pub text: Seq<Seq<char>>,
    pub link_text: Option<Seq<Seq<char>>>,
    pub image: Option<ImageView>,
    pub image_alts: Seq<Seq<char>>,
}

/// A block of the wiki content as plain values.
pub enum BlockView {
    Section(Option<Seq<Seq<char>>>, Seq<Seq<char>>),
    Category(Option<Seq<Seq<char>>>, Seq<Seq<char>>),
    Table(bool, Seq<Seq<CellView>>),
    Other,
}

/// The plain values of an image.
pub open spec fn image_view(i: WikiImage) -> ImageView {
    ImageView { src: text_view(i.src), data_src: text_view(i.data_src), srcset: text_view(i.srcset) }
}

/// The plain values of a cell.
pub open spec fn cell_view(c: WikiCell) -> CellView {
    CellView {
        text: texts(c.text),
        link_text: match c.link_text {
            Some(l) => Some(texts(l)),
            None => None,
        },
        image: match c.image {
            Some(i) => Some(image_view(i)),
            None => None,
        },
        image_alts: texts(c.image_alts),
    }
}

/// The plain values of a sequence of cells.
pub open spec fn cell_seq_view(s: Seq<WikiCell>) -> Seq<CellView> {
    s.map_values(|c: WikiCell| cell_view(c))
}

/// The plain values of a row of cells.
pub open spec fn cells_view(r: Vec<WikiCell>) -> Seq<CellView> {
    cell_seq_view(r@)
}

/// The plain values of a sequence of rows.
pub open spec fn row_seq_view(s: Seq<Vec<WikiCell>>) -> Seq<Seq<CellView>> {
    s.map_values(|r: Vec<WikiCell>| cells_view(r))
}

/// The plain values of the rows of a table.
pub open spec fn rows_view(rows: Vec<Vec<WikiCell>>) -> Seq<Seq<CellView>> {
    row_seq_view(rows@)
}

/// The plain values of a block.
pub open spec fn block_view(b: WikiBlock) -> BlockView {
    match b {
        WikiBlock::SectionHeading { headline, text } => BlockView::Section(
            match headline {
                Some(h) => Some(texts(h)),
                None => None,
            },
            texts(text),
        ),
        WikiBlock::CategoryHeading { headline, text } => BlockView::Category(
            match headline {
                Some(h) => Some(texts(h)),
                None => None,
            },
            texts(text),
        ),
        WikiBlock::Table { wikitable, rows } => BlockView::Table(wikitable, rows_view(rows)),
        WikiBlock::Other => BlockView::Other,
    }
}

/// The plain values of a sequence of blocks.
pub open spec fn block_seq_view(s: Seq<WikiBlock>) -> Seq<BlockView> {
    s.map_values(|b: WikiBlock| block_view(b))
}

/// The plain values of a list of blocks.
pub open spec fn blocks_view(v: Vec<WikiBlock>) -> Seq<BlockView> {
    block_seq_view(v@)
}

/// The cell that the `th` or `td` element `j` gives: the texts of its
/// subtree, those of its first link, the addresses of its first image, and
/// the alternative texts of its images.
pub open spec fn cell_of(d: Seq<DomNodeView>, j: int) -> CellView {
    let e = end_of(d, j);
    CellView {
        text: texts_in(d, j, e),
        link_text: match first_index(d, j + 1, e, Pick::Named("a"@)) {
            Some(k) => Some(texts_in(d, k, end_of(d, k))),
            None => None,
        },
        image: match first_index(d, j + 1, e, Pick::Named("img"@)) {
            Some(k) => Some(
                ImageView {
                    src: attr_of(d[k].attributes, "src"@),
                    data_src: attr_of(d[k].attributes, "data-src"@),
                    srcset: attr_of(d[k].attributes, "srcset"@),
                },
            ),
            None => None,
        },
        image_alts: alts_in(d, j + 1, e),
    }
}

/// The cells from `lo` up to `hi` of a row whose element is at depth `dep`.
pub open spec fn row_cells(d: Seq<DomNodeView>, lo: int, hi: int, dep: int) -> Seq<CellView>
    decreases hi - lo,
{
    if hi <= lo {
        Seq::empty()
    } else {
        let rest = row_cells(d, lo, hi - 1, dep);
        if picks(Pick::ChildCell(dep), d[hi - 1]) {
            rest.push(cell_of(d, hi - 1))
        } else {
            rest
        }
    }
}

/// The rows of the `tr` elements from `lo` up to `hi`, in order.
pub open spec fn table_rows(d: Seq<DomNodeView>, lo: int, hi: int) -> Seq<Seq<CellView>>
    decreases hi - lo,
{
    if hi <= lo {
        Seq::empty()
    } else {
        let rest = table_rows(d, lo, hi - 1);
        let r = hi - 1;
        if picks(Pick::Named("tr"@), d[r]) {
            rest.push(row_cells(d, r + 1, end_of(d, r), d[r].depth as int))
        } else {
            rest
        }
    }
}

/// The headline of the heading element `h`: the texts of the first element
/// in it with the class `mw-headline`.
pub open spec fn headline_of(d: Seq<DomNodeView>, h: int) -> Option<Seq<Seq<char>>> {
    match first_index(d, h + 1, end_of(d, h), Pick::Classed("mw-headline"@)) {
        Some(k) => Some(texts_in(d, k, end_of(d, k))),
        None => None,
    }
}

/// The block that the element `c` gives: a level-two or level-three
/// heading, a table (a wikitable when it has that class), or another block.
pub open spec fn block_of(d: Seq<DomNodeView>, c: int) -> BlockView {
    let n = d[c];
    let e = end_of(d, c);
    if n.name == Some("h2"@) {
        BlockView::Section(headline_of(d, c), texts_in(d, c, e))
    } else if n.name == Some("h3"@) {
        BlockView::Category(headline_of(d, c), texts_in(d, c, e))
    } else if n.name == Some("table"@) {
        BlockView::Table(n.classes.contains("wikitable"@), table_rows(d, c + 1, e))
    } else {
        BlockView::Other
    }
}

/// The blocks of the elements from `lo` up to `hi` one level below a node
/// at depth `dep`.
pub open spec fn blocks_in(d: Seq<DomNodeView>, lo: int, hi: int, dep: int) -> Seq<BlockView>
    decreases hi - lo,
{
    if hi <= lo {
        Seq::empty()
    } else {
        let rest = blocks_in(d, lo, hi - 1, dep);
        if picks(Pick::ChildElement(dep), d[hi - 1]) {
            rest.push(block_of(d, hi - 1))
        } else {
            rest
        }
    }
}

/// The blocks of the wiki content: the child elements of the first element
/// with the class `mw-parser-output`; an error when there is none.
pub open spec fn dom_blocks(d: Seq<DomNodeView>) -> Result<Seq<BlockView>, Seq<char>> {
    match first_index(d, 0, d.len() as int, Pick::Classed("mw-parser-output"@)) {
        None => Err("Wiki response did not include .mw-parser-output"@),
        Some(r) => Ok(blocks_in(d, r + 1, end_of(d, r), d[r].depth as int)),
    }
}


/// A search, as the code carries it out.
enum PickArg {
    Named(String),
    Classed(String),
    ChildElement(usize),
    ChildCell(usize),
}

spec fn pick_view(p: PickArg) -> Pick {
    match p {
        PickArg::Named(t) => Pick::Named(t@),
        PickArg::Classed(c) => Pick::Classed(c@),
        PickArg::ChildElement(d) => Pick::ChildElement(d as int),
        PickArg::ChildCell(d) => Pick::ChildCell(d as int),
    }
}

/// Whether a list of strings holds `x`.
fn holds_text(v: &Vec<String>, x: &str) -> (r: bool)
    ensures
        r == texts(*v).contains(x@),
{
    let n: usize = v.len();
    let mut i: usize = 0;
    while i < n
        invariant
            n == v@.len(),
            i <= n,
            forall|k: int| 0 <= k < i ==> (#[trigger] texts(*v)[k]) != x@,
        decreases n - i,
    {
        if str_eq(v[i].as_str(), x) {
            assert(texts(*v)[i as int] == x@);
            return true;
        }
        i += 1;
    }
    false
}

/// Whether a search picks a node.
fn picks_node(p: &PickArg, n: &DomNode) -> (r: bool)
    ensures
        r == picks(pick_view(*p), node_view(*n)),
{
    let named = |t: &str| -> (b: bool)
        ensures
            b == (text_view(n.name) == Some(t@)),
        {
            match &n.name {
                Some(x) => str_eq(x.as_str(), t),
                None => false,
            }
        };
    match p {
        PickArg::Named(t) => named(t.as_str()),
        PickArg::Classed(c) => n.name.is_some() && holds_text(&n.classes, c.as_str()),
        PickArg::ChildElement(dep) => n.name.is_some() && n.depth > 0 && n.depth - 1 == *dep,
        PickArg::ChildCell(dep) => {
            proof {
                reveal_strlit("th");
                reveal_strlit("td");
            }
            n.depth > 0 && n.depth - 1 == *dep && (named("th") || named("td"))
        },
    }
}

/// The end of the subtree of node `i`.
fn end_at(nodes: &Vec<DomNode>, i: usize) -> (r: usize)
    requires
        i < nodes@.len(),
    ensures
        r as int == end_of(nodes_view(*nodes), i as int),
        i <= r <= nodes@.len(),
{
    let len: usize = nodes.len();
    let size: usize = nodes[i].size;
    if size > len - i {
        len
    } else {
        i + size
    }
}

/// The first node from `lo` up to `hi` that a search picks.
fn first_pick(nodes: &Vec<DomNode>, lo: usize, hi: usize, p: &PickArg) -> (r: Option<usize>)
    requires
        hi <= nodes@.len(),
    ensures
        match r {
            Some(k) => first_index(nodes_view(*nodes), lo as int, hi as int, pick_view(*p)) == Some(
                k as int,
            ) && lo <= k < hi,
            None => first_index(nodes_view(*nodes), lo as int, hi as int, pick_view(*p)) is None,
        },
{
    let ghost d = nodes_view(*nodes);
    let mut i: usize = lo;
    while i < hi
        invariant
            lo <= i,
            hi <= nodes@.len(),
            d == nodes_view(*nodes),
            first_index(d, lo as int, hi as int, pick_view(*p)) == first_index(
                d,
                i as int,
                hi as int,
                pick_view(*p),
            ),
        decreases hi - i,
    {
        if picks_node(p, &nodes[i]) {
            return Some(i);
        }
        i += 1;
    }
    None
}

/// The texts of the text nodes from `lo` up to `hi`.
fn texts_between(nodes: &Vec<DomNode>, lo: usize, hi: usize) -> (r: Vec<String>)
    requires
        hi <= nodes@.len(),
    ensures
        texts(r) == texts_in(nodes_view(*nodes), lo as int, hi as int),
{
    let ghost d = nodes_view(*nodes);
    let mut out: Vec<String> = Vec::new();
    if lo >= hi {
        assert(texts(out) =~= Seq::<Seq<char>>::empty());
        return out;
    }
    let mut i: usize = lo;
    while i < hi
        invariant
            lo <= i <= hi,
            hi <= nodes@.len(),
            d == nodes_view(*nodes),
            texts(out) == texts_in(d, lo as int, i as int),
        decreases hi - i,
    {
        match &nodes[i].text {
            Some(t) => {
                let ghost before = texts(out);
                out.push(copy_string(t));
                assert(texts(out) =~= before.push(t@));
            },
            None => {},
        }
        i += 1;
    }
    out
}

/// The value of the first attribute named `key`.
fn attr_value(attrs: &Vec<(String, String)>, key: &str) -> (r: Option<String>)
    ensures
        text_view(r) == attr_of(attrs@.map_values(|a: (String, String)| (a.0@, a.1@)), key@),
{
    let ghost v = attrs@.map_values(|a: (String, String)| (a.0@, a.1@));
    let n: usize = attrs.len();
    let mut i: usize = 0;
    assert(v.skip(0) =~= v);
    while i < n
        invariant
            n == attrs@.len(),
            i <= n,
            v == attrs@.map_values(|a: (String, String)| (a.0@, a.1@)),
            attr_of(v, key@) == attr_of(v.skip(i as int), key@),
        decreases n - i,
    {
        assert(v.skip(i as int)[0] == v[i as int]);
        assert(v.skip(i as int).drop_first() =~= v.skip(i as int + 1));
        if str_eq(attrs[i].0.as_str(), key) {
            return Some(copy_string(&attrs[i].1));
        }
        i += 1;
    }
    None
}

/// The alternative texts of the images from `lo` up to `hi`.
fn alts_between(nodes: &Vec<DomNode>, lo: usize, hi: usize) -> (r: Vec<String>)
    requires
        hi <= nodes@.len(),
    ensures
        texts(r) == alts_in(nodes_view(*nodes), lo as int, hi as int),
{
    let ghost d = nodes_view(*nodes);
    let mut out: Vec<String> = Vec::new();
    if lo >= hi {
        assert(texts(out) =~= Seq::<Seq<char>>::empty());
        return out;
    }
    let img = PickArg::Named(String::from_str("img"));
    let mut i: usize = lo;
    while i < hi
        invariant
            lo <= i <= hi,
            hi <= nodes@.len(),
            d == nodes_view(*nodes),
            pick_view(img) == Pick::Named("img"@),
            texts(out) == alts_in(d, lo as int, i as int),
        decreases hi - i,
    {
        if picks_node(&img, &nodes[i]) {
            match attr_value(&nodes[i].attributes, "alt") {
                Some(a) => {
                    let ghost before = texts(out);
                    out.push(a);
                    assert(texts(out) =~= before.push(a@));
                },
                None => {},
            }
        }
        i += 1;
    }
    out
}

/// The cell of the `th` or `td` element `j`.
fn cell_at(nodes: &Vec<DomNode>, j: usize) -> (r: WikiCell)
    requires
        j < nodes@.len(),
    ensures
        cell_view(r) == cell_of(nodes_view(*nodes), j as int),
{
    let len: usize = nodes.len();
    proof {
        assert(j + 1 <= len);
    }
    let e: usize = end_at(nodes, j);
    let text = texts_between(nodes, j, e);
    let link_text = match first_pick(nodes, j + 1, e, &PickArg::Named(String::from_str("a"))) {
        Some(k) => Some(texts_between(nodes, k, end_at(nodes, k))),
        None => None,
    };
    let image = match first_pick(nodes, j + 1, e, &PickArg::Named(String::from_str("img"))) {
        Some(k) => Some(
            WikiImage {
                src: attr_value(&nodes[k].attributes, "src"),
                data_src: attr_value(&nodes[k].attributes, "data-src"),
                srcset: attr_value(&nodes[k].attributes, "srcset"),
            },
        ),
        None => None,
    };
    let image_alts = alts_between(nodes, j + 1, e);
    WikiCell { text, link_text, image, image_alts }
}

/// The cells of the row element `r`.
fn row_at(nodes: &Vec<DomNode>, r: usize) -> (out: Vec<WikiCell>)
    requires
        r < nodes@.len(),
    ensures
        cells_view(out) == row_cells(
            nodes_view(*nodes),
            r + 1,
            end_of(nodes_view(*nodes), r as int),
            nodes@[r as int].depth as int,
        ),
{
    let ghost d = nodes_view(*nodes);
    let len: usize = nodes.len();
    proof {
        assert(r + 1 <= len);
    }
    let lo: usize = r + 1;
    let hi: usize = end_at(nodes, r);
    let dep: usize = nodes[r].depth;
    let mut out: Vec<WikiCell> = Vec::new();
    if lo >= hi {
        assert(cells_view(out) =~= Seq::<CellView>::empty());
        return out;
    }
    let p = PickArg::ChildCell(dep);
    let mut i: usize = lo;
    while i < hi
        invariant
            lo <= i <= hi,
            hi <= nodes@.len(),
            d == nodes_view(*nodes),
            pick_view(p) == Pick::ChildCell(dep as int),
            cells_view(out) == row_cells(d, lo as int, i as int, dep as int),
        decreases hi - i,
    {
        if picks_node(&p, &nodes[i]) {
            let c = cell_at(nodes, i);
            let ghost before = cells_view(out);
            out.push(c);
            assert(cells_view(out) =~= before.push(cell_of(d, i as int)));
        }
        i += 1;
    }
    out
}

/// The rows of the `tr` elements from `lo` up to `hi`.
fn rows_between(nodes: &Vec<DomNode>, lo: usize, hi: usize) -> (out: Vec<Vec<WikiCell>>)
    requires
        hi <= nodes@.len(),
    ensures
        rows_view(out) == table_rows(nodes_view(*nodes), lo as int, hi as int),
{
    let ghost d = nodes_view(*nodes);
    let mut out: Vec<Vec<WikiCell>> = Vec::new();
    if lo >= hi {
        assert(rows_view(out) =~= Seq::<Seq<CellView>>::empty());
        return out;
    }
    let p = PickArg::Named(String::from_str("tr"));
    let mut i: usize = lo;
    while i < hi
        invariant
            lo <= i <= hi,
            hi <= nodes@.len(),
            d == nodes_view(*nodes),
            pick_view(p) == Pick::Named("tr"@),
            rows_view(out) == table_rows(d, lo as int, i as int),
        decreases hi - i,
    {
        if picks_node(&p, &nodes[i]) {
            let row = row_at(nodes, i);
            let ghost before = rows_view(out);
            out.push(row);
            assert(rows_view(out) =~= before.push(cells_view(row)));
        }
        i += 1;
    }
    out
}

/// The headline of the heading element `h`.
fn headline_at(nodes: &Vec<DomNode>, h: usize) -> (r: Option<Vec<String>>)
    requires
        h < nodes@.len(),
    ensures
        match r {
            Some(v) => headline_of(nodes_view(*nodes), h as int) == Some(texts(v)),
            None => headline_of(nodes_view(*nodes), h as int) is None,
        },
{
    let len: usize = nodes.len();
    proof {
        assert(h + 1 <= len);
    }
    let e: usize = end_at(nodes, h);
    match first_pick(nodes, h + 1, e, &PickArg::Classed(String::from_str("mw-headline"))) {
        Some(k) => Some(texts_between(nodes, k, end_at(nodes, k))),
        None => None,
    }
}

/// The block of the element `c`.
fn block_at(nodes: &Vec<DomNode>, c: usize) -> (r: WikiBlock)
    requires
        c < nodes@.len(),
    ensures
        block_view(r) == block_of(nodes_view(*nodes), c as int),
{
    let len: usize = nodes.len();
    proof {
        assert(c + 1 <= len);
    }
    let e: usize = end_at(nodes, c);
    let n = &nodes[c];
    if picks_node(&PickArg::Named(String::from_str("h2")), n) {
        WikiBlock::SectionHeading { headline: headline_at(nodes, c), text: texts_between(nodes, c, e) }
    } else if picks_node(&PickArg::Named(String::from_str("h3")), n) {
        WikiBlock::CategoryHeading { headline: headline_at(nodes, c), text: texts_between(nodes, c, e) }
    } else if picks_node(&PickArg::Named(String::from_str("table")), n) {
        WikiBlock::Table {
            wikitable: holds_text(&n.classes, "wikitable"),
            rows: rows_between(nodes, c + 1, e),
        }
    } else {
        WikiBlock::Other
    }
}

/// The blocks of the wiki content of a parsed page: the child elements of
/// the first element with the class `mw-parser-output`, each read as a
/// heading, a table or another block; an error when the page has no such
/// element.
pub fn content_blocks_of(nodes: &Vec<DomNode>) -> (r: Result<Vec<WikiBlock>, String>)
    ensures
        match r {
            Ok(blocks) => dom_blocks(nodes_view(*nodes)) == Ok::<Seq<BlockView>, Seq<char>>(
                blocks_view(blocks),
            ),
            Err(m) => dom_blocks(nodes_view(*nodes)) == Err::<Seq<BlockView>, Seq<char>>(m@),
        },
{
    let ghost d = nodes_view(*nodes);
    let root: usize = match first_pick(
        nodes,
        0,
        nodes.len(),
        &PickArg::Classed(String::from_str("mw-parser-output")),
    ) {
        Some(k) => k,
        None => {
            return Err(String::from_str("Wiki response did not include .mw-parser-output"));
        },
    };
    let lo: usize = root + 1;
    let hi: usize = end_at(nodes, root);
    let dep: usize = nodes[root].depth;
    let mut out: Vec<WikiBlock> = Vec::new();
    if lo >= hi {
        assert(blocks_view(out) =~= Seq::<BlockView>::empty());
        return Ok(out);
    }
    let p = PickArg::ChildElement(dep);
    let mut i: usize = lo;
    while i < hi
        invariant
            lo <= i <= hi,
            hi <= nodes@.len(),
            d == nodes_view(*nodes),
            pick_view(p) == Pick::ChildElement(dep as int),
            blocks_view(out) == blocks_in(d, lo as int, i as int, dep as int),
        decreases hi - i,
    {
        if picks_node(&p, &nodes[i]) {
            let b = block_at(nodes, i);
            let ghost before = blocks_view(out);
            out.push(b);
            assert(blocks_view(out) =~= before.push(block_of(d, i as int)));
        }
        i += 1;
    }
    Ok(out)
}

/// The blocks of the wiki content of an HTML page, as
/// `content_blocks_of` reads them from the page's parsed nodes.
pub fn page_blocks(html: &str) -> (r: Result<Vec<WikiBlock>, String>)
    ensures
        match r {
            Ok(blocks) => dom_blocks(html_dom(html@)) == Ok::<Seq<BlockView>, Seq<char>>(
                blocks_view(blocks),
            ),
            Err(m) => dom_blocks(html_dom(html@)) == Err::<Seq<BlockView>, Seq<char>>(m@),
        },
{
    let nodes = parse_html_dom(html);
    content_blocks_of(&nodes)
}


proof fn lemma_cell_reading(a: WikiCell, b: WikiCell, n: Seq<char>)
    requires
        cell_view(a) == cell_view(b),
    ensures
        name_of(a) == name_of(b),
        command_of(a) == command_of(b),
        image_url_of(a) == image_url_of(b),
        names_column(a, n) == names_column(b, n),
{
    assert(texts(a.text) == texts(b.text));
    assert(texts(a.image_alts) == texts(b.image_alts));
    match (a.link_text, b.link_text) {
        (Some(x), Some(y)) => assert(texts(x) == texts(y)),
        _ => {},
    }
    match (a.image, b.image) {
        (Some(x), Some(y)) => {
            assert(image_view(x) == image_view(y));
        },
        _ => {},
    }
}

proof fn lemma_column_index_by_view(a: Seq<WikiCell>, b: Seq<WikiCell>, n: Seq<char>)
    requires
        cell_seq_view(a) == cell_seq_view(b),
    ensures
        column_index(a, n) == column_index(b, n),
    decreases a.len(),
{
    assert(cell_seq_view(a).len() == a.len());
    assert(cell_seq_view(b).len() == b.len());
    if a.len() > 0 {
        assert(cell_view(a[0]) == cell_seq_view(a)[0]);
        assert(cell_view(b[0]) == cell_seq_view(b)[0]);
        lemma_cell_reading(a[0], b[0], n);
        assert(cell_seq_view(a.drop_first()) =~= cell_seq_view(b.drop_first())) by {
            assert forall|i: int| 0 <= i < a.len() - 1 implies cell_view(a.drop_first()[i]) == cell_view(
                b.drop_first()[i],
            ) by {
                assert(cell_seq_view(a)[i + 1] == cell_view(a[i + 1]));
                assert(cell_seq_view(b)[i + 1] == cell_view(b[i + 1]));
                assert(a.drop_first()[i] == a[i + 1]);
                assert(b.drop_first()[i] == b[i + 1]);
            }
        }
        lemma_column_index_by_view(a.drop_first(), b.drop_first(), n);
    }
}

proof fn lemma_row_item_by_view(
    a: Seq<WikiCell>,
    b: Seq<WikiCell>,
    icon: nat,
    name: nat,
    command: nat,
    section: Seq<char>,
    category: Seq<char>,
)
    requires
        cell_seq_view(a) == cell_seq_view(b),
    ensures
        row_item(a, icon, name, command, section, category) == row_item(
            b,
            icon,
            name,
            command,
            section,
            category,
        ),
{
    assert(cell_seq_view(a).len() == a.len());
    assert(cell_seq_view(b).len() == b.len());
    if name < a.len() {
        assert(cell_seq_view(a)[name as int] == cell_view(a[name as int]));
        assert(cell_seq_view(b)[name as int] == cell_view(b[name as int]));
        lemma_cell_reading(a[name as int], b[name as int], Seq::empty());
    }
    if command < a.len() {
        assert(cell_seq_view(a)[command as int] == cell_view(a[command as int]));
        assert(cell_seq_view(b)[command as int] == cell_view(b[command as int]));
        lemma_cell_reading(a[command as int], b[command as int], Seq::empty());
    }
    if icon < a.len() {
        assert(cell_seq_view(a)[icon as int] == cell_view(a[icon as int]));
        assert(cell_seq_view(b)[icon as int] == cell_view(b[icon as int]));
        lemma_cell_reading(a[icon as int], b[icon as int], Seq::empty());
    }
}

proof fn lemma_rows_items_by_view(
    a: Seq<Vec<WikiCell>>,
    b: Seq<Vec<WikiCell>>,
    icon: nat,
    name: nat,
    command: nat,
    section: Seq<char>,
    category: Seq<char>,
)
    requires
        row_seq_view(a) == row_seq_view(b),
    ensures
        rows_items(a, icon, name, command, section, category) == rows_items(
            b,
            icon,
            name,
            command,
            section,
            category,
        ),
    decreases a.len(),
{
    assert(row_seq_view(a).len() == a.len());
    assert(row_seq_view(b).len() == b.len());
    if a.len() > 0 {
        let k = a.len() - 1;
        assert(row_seq_view(a)[k] == cells_view(a[k]));
        assert(row_seq_view(b)[k] == cells_view(b[k]));
        lemma_row_item_by_view(a.last()@, b.last()@, icon, name, command, section, category);
        assert(row_seq_view(a.drop_last()) =~= row_seq_view(b.drop_last())) by {
            assert forall|i: int| 0 <= i < k implies cells_view(a.drop_last()[i]) == cells_view(b.drop_last()[i]) by {
                assert(row_seq_view(a)[i] == cells_view(a[i]));
                assert(row_seq_view(b)[i] == cells_view(b[i]));
                assert(a.drop_last()[i] == a[i]);
                assert(b.drop_last()[i] == b[i]);
            }
        }
        lemma_rows_items_by_view(a.drop_last(), b.drop_last(), icon, name, command, section, category);
    }
}

proof fn lemma_table_items_by_view(a: Vec<Vec<WikiCell>>, b: Vec<Vec<WikiCell>>, section: Seq<char>, category: Seq<char>)
    requires
        rows_view(a) == rows_view(b),
    ensures
        table_items(a@, section, category) == table_items(b@, section, category),
{
    assert(rows_view(a).len() == a@.len());
    assert(rows_view(b).len() == b@.len());
    if a@.len() > 0 {
        assert(rows_view(a)[0] == cells_view(a@[0]));
        assert(rows_view(b)[0] == cells_view(b@[0]));
        lemma_column_index_by_view(a@[0]@, b@[0]@, "Icon"@);
        lemma_column_index_by_view(a@[0]@, b@[0]@, "Name"@);
        lemma_column_index_by_view(a@[0]@, b@[0]@, "Stratagem Code"@);
        assert(row_seq_view(a@.drop_first()) =~= row_seq_view(b@.drop_first())) by {
            assert forall|i: int| 0 <= i < a@.len() - 1 implies cells_view(a@.drop_first()[i]) == cells_view(
                b@.drop_first()[i],
            ) by {
                assert(rows_view(a)[i + 1] == cells_view(a@[i + 1]));
                assert(rows_view(b)[i + 1] == cells_view(b@[i + 1]));
                assert(a@.drop_first()[i] == a@[i + 1]);
                assert(b@.drop_first()[i] == b@[i + 1]);
            }
        }
        let ha = a@[0]@;
        let hb = b@[0]@;
        let icon = match column_index(ha, "Icon"@) { Some(i) => i, None => 0 };
        let name = match column_index(ha, "Name"@) { Some(i) => i, None => 1 };
        let command = match column_index(ha, "Stratagem Code"@) { Some(i) => i, None => 2 };
        lemma_rows_items_by_view(a@.drop_first(), b@.drop_first(), icon, name, command, section, category);
    }
}

/// The stratagems read from content blocks depend only on what the blocks
/// hold as plain values: blocks with the same views give the same
/// stratagems, so the blocks of a page fix its stratagems.
pub proof fn lemma_stratagems_depend_on_block_views(a: Vec<WikiBlock>, b: Vec<WikiBlock>)
    requires
        blocks_view(a) == blocks_view(b),
    ensures
        blocks_fold(a@) == blocks_fold(b@),
{
    lemma_fold_by_view(a@, b@);
}

proof fn lemma_fold_by_view(a: Seq<WikiBlock>, b: Seq<WikiBlock>)
    requires
        block_seq_view(a) == block_seq_view(b),
    ensures
        blocks_fold(a) == blocks_fold(b),
    decreases a.len(),
{
    assert(block_seq_view(a).len() == a.len());
    assert(block_seq_view(b).len() == b.len());
    if a.len() > 0 {
        let k = a.len() - 1;
        assert(block_seq_view(a.drop_last()) =~= block_seq_view(b.drop_last())) by {
            assert forall|i: int| 0 <= i < k implies block_view(a.drop_last()[i]) == block_view(b.drop_last()[i]) by {
                assert(block_seq_view(a)[i] == block_view(a[i]));
                assert(block_seq_view(b)[i] == block_view(b[i]));
                assert(a.drop_last()[i] == a[i]);
                assert(b.drop_last()[i] == b[i]);
            }
        }
        lemma_fold_by_view(a.drop_last(), b.drop_last());
        assert(block_seq_view(a)[k] == block_view(a[k]));
        assert(block_seq_view(b)[k] == block_view(b[k]));
        let (items, section, category) = blocks_fold(a.drop_last());
        match (a.last(), b.last()) {
            (WikiBlock::SectionHeading { headline: ha, text: ta }, WikiBlock::SectionHeading { headline: hb, text: tb }) => {
                match (ha, hb) {
                    (Some(x), Some(y)) => assert(texts(x) == texts(y)),
                    _ => {},
                }
            },
            (WikiBlock::CategoryHeading { headline: ha, text: ta }, WikiBlock::CategoryHeading { headline: hb, text: tb }) => {
                match (ha, hb) {
                    (Some(x), Some(y)) => assert(texts(x) == texts(y)),
                    _ => {},
                }
            },
            (WikiBlock::Table { wikitable: wa, rows: ra }, WikiBlock::Table { wikitable: wb, rows: rb }) => {
                lemma_table_items_by_view(ra, rb, section, category);
            },
            _ => {},
        }
    }
}

} // verus!
