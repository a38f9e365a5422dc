//! The concrete syntax tree that the Verible parser prints, and finding the way
//! around in it.
//!
//! Verible prints each node with its tag, a leaf with its text and its byte
//! range, and a branch with its children; an absent optional child leaves a
//! hole. [`RawNode`] holds a node as it is printed. [`Node`] holds what the
//! front end reads: a missing tag is empty, and there are no holes.
use vstd::prelude::*;

use crate::literal::{strip_underscores, without_underscores};
use crate::text::{parse_i64, parsed_i64, str_eq};

verus! {

/// A node as Verible prints it.
#[derive(Debug)]
pub struct RawNode {
    pub tag: Option<String>,
    pub text: Option<String>,
    /// The byte offset of a leaf in the source.
    pub start: Option<u64>,
    /// The children, with a hole for each absent one.
    pub children: Vec<Option<RawNode>>,
}

/// A node of the concrete syntax tree.
#[derive(Debug)]
pub struct Node {
    pub tag: String,
    pub text: Option<String>,
    /// The byte offset of a leaf in the source.
    pub start: Option<u64>,
    pub kids: Vec<Node>,
}

/// The mathematical form of a [`Node`].
pub struct NodeV {
    pub tag: Seq<char>,
    pub text: Option<Seq<char>>,
    pub start: Option<u64>,
    pub kids: Seq<NodeV>,
}

/// The text, if there is one.
pub open spec fn opt_text(o: Option<String>) -> Option<Seq<char>> {
    match o {
        Some(s) => Some(s@),
        None => None,
    }
}

/// The mathematical form of a node.
pub open spec fn node_view(n: Node) -> NodeV
    decreases n,
{
    NodeV { tag: n.tag@, text: opt_text(n.text), start: n.start, kids: nodes_view(n.kids@) }
}

/// The mathematical form of a list of nodes.
pub open spec fn nodes_view(ns: Seq<Node>) -> Seq<NodeV>
    decreases ns,
{
    Seq::new(
        ns.len(),
        |i: int|
            if 0 <= i < ns.len() {
                node_view(ns[i])
            } else {
                arbitrary()
            },
    )
}

impl View for Node {
    type V = NodeV;

    open spec fn view(&self) -> NodeV {
        node_view(*self)
    }
}

/// The mathematical form of a node that may be absent.
pub open spec fn opt_node(o: Option<&Node>) -> Option<NodeV> {
    match o {
        Some(n) => Some(n@),
        None => None,
    }
}

/// The mathematical form of a list of borrowed nodes.
pub open spec fn refs_view(ns: Seq<&Node>) -> Seq<NodeV> {
    Seq::new(ns.len(), |i: int| ns[i]@)
}

impl NodeV {
    /// The text of a leaf; empty for a branch.
    pub open spec fn word(self) -> Seq<char> {
        match self.text {
            Some(t) => t,
            None => Seq::empty(),
        }
    }

    /// The operator or keyword of a leaf: its text, or its tag where the text is
    /// empty.
    pub open spec fn operator(self) -> Seq<char> {
        if self.word().len() == 0 {
            self.tag
        } else {
            self.word()
        }
    }
}

// ---- from the printed form -------------------------------------------------

/// The node without holes and with an empty tag where there is none.
pub open spec fn cleaned(n: RawNode) -> NodeV
    decreases n,
{
    NodeV {
        tag: match n.tag {
            Some(t) => t@,
            None => Seq::empty(),
        },
        text: opt_text(n.text),
        start: n.start,
        kids: cleaned_all(n.children@),
    }
}

/// The nodes that are there, in order.
pub open spec fn cleaned_all(ns: Seq<Option<RawNode>>) -> Seq<NodeV>
    decreases ns,
{
    if ns.len() == 0 {
        Seq::empty()
    } else {
        match ns[0] {
            Some(n) => seq![cleaned(n)] + cleaned_all(ns.drop_first()),
            None => cleaned_all(ns.drop_first()),
        }
    }
}

/// Drop the holes of a printed tree.
pub fn clean(n: &RawNode) -> (r: Node)
    ensures
        r@ == cleaned(*n),
    decreases n,
{
    let tag: String = match &n.tag {
        Some(t) => t.clone(),
        None => String::new(),
    };
    assert(n.tag is None ==> tag@ =~= Seq::<char>::empty());
    let text: Option<String> = match &n.text {
        Some(t) => Some(t.clone()),
        None => None,
    };
    let mut kids: Vec<Node> = Vec::new();
    let mut i: usize = 0;
    let ghost all = n.children@;
    assert(all.skip(0) =~= all);
    assert(nodes_view(kids@) + cleaned_all(all) =~= cleaned_all(all));
    while i < n.children.len()
        invariant
            i <= n.children@.len(),
            all == n.children@,
            cleaned_all(all) == nodes_view(kids@) + cleaned_all(all.skip(i as int)),
        decreases n.children@.len() - i,
    {
        let ghost rest = all.skip(i as int);
        assert(rest[0] == n.children@[i as int]);
        assert(rest.drop_first() =~= all.skip(i as int + 1));
        if let Some(child) = &n.children[i] {
            assert(decreases_to!(n.children => n.children@[i as int]));
            let kid: Node = clean(child);
            let ghost old_kids = kids@;
            kids.push(kid);
            assert(nodes_view(kids@) =~= nodes_view(old_kids).push(kid@));
            assert(nodes_view(old_kids) + (seq![kid@] + cleaned_all(rest.drop_first()))
                =~= nodes_view(kids@) + cleaned_all(rest.drop_first()));
        }
        i = i + 1;
    }
    assert(all.skip(i as int) =~= Seq::<Option<RawNode>>::empty());
    assert(nodes_view(kids@) + Seq::<NodeV>::empty() =~= nodes_view(kids@));
    Node { tag, text, start: n.start, kids }
}

// ---- size -------------------------------------------------------------------

/// The number of nodes in a tree.
pub open spec fn size(n: NodeV) -> nat
    decreases n,
{
    1 + size_all(n.kids)
}

/// The number of nodes in some trees.
pub open spec fn size_all(ns: Seq<NodeV>) -> nat
    decreases ns,
{
    if ns.len() == 0 {
        0
    } else {
        size(ns[0]) + size_all(ns.drop_first())
    }
}

/// The number of nodes in a tree that may be absent.
pub open spec fn size_opt(o: Option<NodeV>) -> nat {
    match o {
        Some(n) => size(n),
        None => 0,
    }
}

/// A tree of a list is no larger than the list.
pub proof fn lemma_size_all(ns: Seq<NodeV>, i: int)
    requires
        0 <= i < ns.len(),
    ensures
        size(ns[i]) <= size_all(ns),
    decreases ns.len(),
{
    if i > 0 {
        lemma_size_all(ns.drop_first(), i - 1);
        assert(ns.drop_first()[i - 1] == ns[i]);
    }
}

/// A child is smaller than its node.
pub broadcast proof fn lemma_kid(n: NodeV, i: int)
    requires
        0 <= i < n.kids.len(),
    ensures
        size(#[trigger] n.kids[i]) < size(n),
{
    lemma_size_all(n.kids, i);
}

// ---- children ---------------------------------------------------------------

/// Whether a node has a tag.
pub fn has_tag(n: &Node, t: &str) -> (r: bool)
    ensures
        r == (n@.tag == t@),
{
    str_eq(n.tag.as_str(), t)
}

/// The first node of a list with a tag.
pub open spec fn first_tagged(ns: Seq<NodeV>, t: Seq<char>) -> Option<NodeV>
    decreases ns.len(),
{
    if ns.len() == 0 {
        None
    } else if ns[0].tag == t {
        Some(ns[0])
    } else {
        first_tagged(ns.drop_first(), t)
    }
}

/// The first child with a tag.
pub open spec fn found(n: NodeV, t: Seq<char>) -> Option<NodeV> {
    first_tagged(n.kids, t)
}

/// The first child with a tag of a node that may be absent.
pub open spec fn found_in(o: Option<NodeV>, t: Seq<char>) -> Option<NodeV> {
    match o {
        Some(n) => found(n, t),
        None => None,
    }
}

/// The first tree with a tag, each node before the trees below it.
pub open spec fn first_deep(ns: Seq<NodeV>, t: Seq<char>) -> Option<NodeV>
    decreases ns,
{
    if ns.len() == 0 {
        None
    } else if ns[0].tag == t {
        Some(ns[0])
    } else {
        match first_deep(ns[0].kids, t) {
            Some(m) => Some(m),
            None => first_deep(ns.drop_first(), t),
        }
    }
}

/// The first node with a tag below a node.
pub open spec fn found_deep(n: NodeV, t: Seq<char>) -> Option<NodeV> {
    first_deep(n.kids, t)
}

/// The first node with a tag below a node that may be absent.
pub open spec fn found_deep_in(o: Option<NodeV>, t: Seq<char>) -> Option<NodeV> {
    match o {
        Some(n) => found_deep(n, t),
        None => None,
    }
}

/// The children with a tag.
pub open spec fn tagged(ns: Seq<NodeV>, t: Seq<char>) -> Seq<NodeV>
    decreases ns.len(),
{
    if ns.len() == 0 {
        Seq::empty()
    } else if ns.last().tag == t {
        tagged(ns.drop_last(), t).push(ns.last())
    } else {
        tagged(ns.drop_last(), t)
    }
}

/// A node found among some is one of them.
pub proof fn lemma_first_tagged(ns: Seq<NodeV>, t: Seq<char>)
    ensures
        first_tagged(ns, t) matches Some(m) ==> exists|i: int|
            0 <= i < ns.len() && #[trigger] ns[i] == m && m.tag == t,
    decreases ns.len(),
{
    if ns.len() > 0 && ns[0].tag != t {
        lemma_first_tagged(ns.drop_first(), t);
        if let Some(m) = first_tagged(ns.drop_first(), t) {
            let i = choose|i: int| 0 <= i < ns.drop_first().len() && ns.drop_first()[i] == m;
            assert(ns[i + 1] == m);
        }
    }
}

/// A child that is found is smaller than its node.
pub broadcast proof fn lemma_found(n: NodeV, t: Seq<char>)
    ensures
        size_opt(#[trigger] found(n, t)) < size(n),
        found(n, t) matches Some(m) ==> m.tag == t,
{
    lemma_first_tagged(n.kids, t);
    if let Some(m) = found(n, t) {
        let i = choose|i: int| 0 <= i < n.kids.len() && n.kids[i] == m;
        lemma_kid(n, i);
    }
}

/// A child that is found in a node that may be absent is smaller, or absent too.
pub broadcast proof fn lemma_found_in(o: Option<NodeV>, t: Seq<char>)
    ensures
        size_opt(#[trigger] found_in(o, t)) < size_opt(o) || o is None && found_in(o, t) is None,
        found_in(o, t) matches Some(m) ==> m.tag == t,
{
    if let Some(n) = o {
        lemma_found(n, t);
    }
}

/// A node found deep below some is smaller than all of them.
pub proof fn lemma_first_deep(ns: Seq<NodeV>, t: Seq<char>)
    ensures
        size_opt(first_deep(ns, t)) <= size_all(ns),
        first_deep(ns, t) matches Some(m) ==> m.tag == t,
    decreases ns,
{
    if ns.len() > 0 {
        lemma_first_deep(ns[0].kids, t);
        lemma_first_deep(ns.drop_first(), t);
        assert(size(ns[0]) == 1 + size_all(ns[0].kids));
        assert(size_all(ns) == size(ns[0]) + size_all(ns.drop_first()));
    }
}

/// A node found below a node is smaller.
pub broadcast proof fn lemma_found_deep(n: NodeV, t: Seq<char>)
    ensures
        size_opt(#[trigger] found_deep(n, t)) < size(n),
        found_deep(n, t) matches Some(m) ==> m.tag == t,
{
    lemma_first_deep(n.kids, t);
}

/// A node found below one that may be absent is smaller, or absent too.
pub broadcast proof fn lemma_found_deep_in(o: Option<NodeV>, t: Seq<char>)
    ensures
        size_opt(#[trigger] found_deep_in(o, t)) < size_opt(o) || o is None && found_deep_in(o, t) is None,
        found_deep_in(o, t) matches Some(m) ==> m.tag == t,
{
    if let Some(n) = o {
        lemma_found_deep(n, t);
    }
}

/// The nodes with a tag are among the nodes.
pub proof fn lemma_tagged(ns: Seq<NodeV>, t: Seq<char>)
    ensures
        size_all(tagged(ns, t)) <= size_all(ns),
        forall|i: int|
            0 <= i < tagged(ns, t).len() ==> (#[trigger] tagged(ns, t)[i]).tag == t && ns.contains(
                tagged(ns, t)[i],
            ),
    decreases ns.len(),
{
    if ns.len() > 0 {
        lemma_tagged(ns.drop_last(), t);
        lemma_size_last(ns);
        let before = tagged(ns.drop_last(), t);
        assert forall|i: int| 0 <= i < tagged(ns, t).len() implies (#[trigger] tagged(ns, t)[i]).tag
            == t && ns.contains(tagged(ns, t)[i]) by {
            if i < before.len() {
                assert(tagged(ns, t)[i] == before[i]);
                let k = choose|k: int|
                    0 <= k < ns.drop_last().len() && ns.drop_last()[k] == before[i];
                assert(ns[k] == before[i]);
            } else {
                assert(ns[ns.len() - 1] == ns.last());
            }
        }
        if ns.last().tag == t {
            lemma_size_last(tagged(ns, t));
            assert(tagged(ns, t).drop_last() =~= before);
        }
    }
}

/// The size of a list by its last tree.
pub proof fn lemma_size_last(ns: Seq<NodeV>)
    requires
        ns.len() > 0,
    ensures
        size_all(ns) == size_all(ns.drop_last()) + size(ns.last()),
    decreases ns.len(),
{
    if ns.len() > 1 {
        lemma_size_last(ns.drop_first());
        assert(ns.drop_first().drop_last() =~= ns.drop_last().drop_first());
        assert(ns.drop_last()[0] == ns[0]);
        assert(ns.drop_first().last() == ns.last());
    } else {
        assert(ns.drop_first() =~= Seq::<NodeV>::empty());
        assert(ns.drop_last() =~= Seq::<NodeV>::empty());
    }
}

/// The children with a tag hold fewer nodes than their node.
pub broadcast proof fn lemma_tagged_size(n: NodeV, t: Seq<char>)
    ensures
        size_all(#[trigger] tagged(n.kids, t)) < size(n),
{
    lemma_tagged(n.kids, t);
}

pub broadcast group group_cst {
    lemma_kid,
    lemma_found,
    lemma_found_in,
    lemma_found_deep,
    lemma_found_deep_in,
    lemma_tagged_size,
}

/// The text of a leaf, empty for a branch.
pub fn text(n: &Node) -> (r: String)
    ensures
        r@ == n@.word(),
{
    match &n.text {
        Some(t) => t.clone(),
        None => String::new(),
    }
}

/// The tag of a node.
pub fn tag(n: &Node) -> (r: String)
    ensures
        r@ == n@.tag,
{
    n.tag.clone()
}

/// The operator or keyword of a leaf: its text, or its tag where the text is
/// empty.
pub fn leaf_op(n: &Node) -> (r: String)
    ensures
        r@ == n@.operator(),
{
    let t: String = text(n);
    if is_empty(&t) {
        n.tag.clone()
    } else {
        t
    }
}

/// Whether a string is empty.
pub fn is_empty(s: &String) -> (r: bool)
    ensures
        r == (s@.len() == 0),
{
    let e: bool = str_eq(s.as_str(), "");
    proof {
        reveal_strlit("");
        assert(s@.len() == 0 ==> s@ =~= ""@);
    }
    e
}

/// The children of a node.
pub fn kids(n: &Node) -> (r: Vec<&Node>)
    ensures
        refs_view(r@) == n@.kids,
{
    let mut out: Vec<&Node> = Vec::new();
    let mut i: usize = 0;
    while i < n.kids.len()
        invariant
            i <= n.kids@.len(),
            refs_view(out@) == n@.kids.take(i as int),
        decreases n.kids@.len() - i,
    {
        let ghost before = out@;
        out.push(&n.kids[i]);
        i = i + 1;
        assert(refs_view(out@) =~= refs_view(before).push(n@.kids[i - 1]));
        assert(n@.kids.take(i as int) =~= n@.kids.take(i as int - 1).push(n@.kids[i - 1]));
    }
    assert(n@.kids.take(i as int) =~= n@.kids);
    out
}

/// The first child of a node.
pub open spec fn first_kid(o: Option<NodeV>) -> Option<NodeV> {
    nth_kid(o, 0)
}

/// A child of a node, by its place.
pub open spec fn nth_kid(o: Option<NodeV>, i: int) -> Option<NodeV> {
    match o {
        Some(n) => if 0 <= i < n.kids.len() {
            Some(n.kids[i])
        } else {
            None
        },
        None => None,
    }
}

/// The last child of a node.
pub open spec fn last_kid(n: NodeV) -> Option<NodeV> {
    nth_kid(Some(n), n.kids.len() - 1)
}

/// The child at a place.
pub fn kid(n: &Node, i: usize) -> (r: Option<&Node>)
    ensures
        opt_node(r) == nth_kid(Some(n@), i as int),
{
    if i < n.kids.len() {
        Some(&n.kids[i])
    } else {
        None
    }
}

/// The first child of a node that may be absent.
pub fn first_kid_of(o: Option<&Node>) -> (r: Option<&Node>)
    ensures
        opt_node(r) == first_kid(opt_node(o)),
{
    match o {
        Some(n) => kid(n, 0),
        None => None,
    }
}

/// The last child of a node.
pub fn final_kid(n: &Node) -> (r: Option<&Node>)
    ensures
        opt_node(r) == last_kid(n@),
{
    if n.kids.len() == 0 {
        None
    } else {
        kid(n, n.kids.len() - 1)
    }
}

/// The first child with a tag.
pub fn find<'a>(n: &'a Node, t: &str) -> (r: Option<&'a Node>)
    ensures
        opt_node(r) == found(n@, t@),
{
    let mut i: usize = 0;
    assert(n@.kids.skip(0) =~= n@.kids);
    while i < n.kids.len()
        invariant
            i <= n.kids@.len(),
            first_tagged(n@.kids, t@) == first_tagged(n@.kids.skip(i as int), t@),
        decreases n.kids@.len() - i,
    {
        let ghost rest = n@.kids.skip(i as int);
        assert(rest[0] == n.kids[i as int]@);
        assert(rest.drop_first() =~= n@.kids.skip(i as int + 1));
        if has_tag(&n.kids[i], t) {
            return Some(&n.kids[i]);
        }
        i = i + 1;
    }
    None
}

/// The first child with a tag of a node that may be absent.
pub fn find_in<'a>(o: Option<&'a Node>, t: &str) -> (r: Option<&'a Node>)
    ensures
        opt_node(r) == found_in(opt_node(o), t@),
{
    match o {
        Some(n) => find(n, t),
        None => None,
    }
}

/// The first node with a tag below a node, each node before those below it.
pub fn find_deep<'a>(n: &'a Node, t: &str) -> (r: Option<&'a Node>)
    ensures
        opt_node(r) == found_deep(n@, t@),
    decreases n,
{
    let mut i: usize = 0;
    assert(n@.kids.skip(0) =~= n@.kids);
    while i < n.kids.len()
        invariant
            i <= n.kids@.len(),
            first_deep(n@.kids, t@) == first_deep(n@.kids.skip(i as int), t@),
        decreases n.kids@.len() - i,
    {
        let ghost rest = n@.kids.skip(i as int);
        assert(rest[0] == n.kids[i as int]@);
        assert(rest.drop_first() =~= n@.kids.skip(i as int + 1));
        if has_tag(&n.kids[i], t) {
            return Some(&n.kids[i]);
        }
        assert(decreases_to!(n.kids => n.kids@[i as int]));
        if let Some(m) = find_deep(&n.kids[i], t) {
            return Some(m);
        }
        i = i + 1;
    }
    None
}

/// The first node with a tag below a node that may be absent.
pub fn find_deep_in<'a>(o: Option<&'a Node>, t: &str) -> (r: Option<&'a Node>)
    ensures
        opt_node(r) == found_deep_in(opt_node(o), t@),
{
    match o {
        Some(n) => find_deep(n, t),
        None => None,
    }
}

/// The first of two that is there.
pub open spec fn or_else(a: Option<NodeV>, b: Option<NodeV>) -> Option<NodeV> {
    if a is Some {
        a
    } else {
        b
    }
}

/// The first of two that is there.
pub fn find_or<'a>(a: Option<&'a Node>, b: Option<&'a Node>) -> (r: Option<&'a Node>)
    ensures
        opt_node(r) == or_else(opt_node(a), opt_node(b)),
{
    match a {
        Some(n) => Some(n),
        None => b,
    }
}

/// The children with a tag.
pub fn kids_tagged<'a>(n: &'a Node, t: &str) -> (r: Vec<&'a Node>)
    ensures
        refs_view(r@) == tagged(n@.kids, t@),
{
    let mut out: Vec<&Node> = Vec::new();
    let mut i: usize = 0;
    assert(refs_view(out@) =~= tagged(n@.kids.take(0), t@));
    while i < n.kids.len()
        invariant
            i <= n.kids@.len(),
            refs_view(out@) == tagged(n@.kids.take(i as int), t@),
        decreases n.kids@.len() - i,
    {
        let ghost before = out@;
        let ghost next = n@.kids.take(i as int + 1);
        assert(next.drop_last() =~= n@.kids.take(i as int));
        assert(next.last() == n.kids[i as int]@);
        if has_tag(&n.kids[i], t) {
            out.push(&n.kids[i]);
            assert(refs_view(out@) =~= refs_view(before).push(n.kids[i as int]@));
        }
        i = i + 1;
    }
    assert(n@.kids.take(i as int) =~= n@.kids);
    out
}

/// Whether a node that may be absent has a child with a tag.
pub open spec fn kid_tagged(o: Option<NodeV>, t: Seq<char>) -> bool {
    found_in(o, t) is Some
}

/// The text of a leaf that may be absent, empty where it is.
pub open spec fn word_of(o: Option<NodeV>) -> Seq<char> {
    match o {
        Some(n) => n.word(),
        None => Seq::empty(),
    }
}

/// The text of a leaf that may be absent, empty where it is.
pub fn text_of(o: Option<&Node>) -> (r: String)
    ensures
        r@ == word_of(opt_node(o)),
{
    match o {
        Some(n) => text(n),
        None => {
            let s = String::new();
            assert(s@ =~= Seq::<char>::empty());
            s
        },
    }
}

// ---- numbers ----------------------------------------------------------------

/// The number of the first decimal leaf that holds one.
pub open spec fn constant(n: NodeV) -> Option<int>
    decreases n,
{
    if n.tag == "TK_DecNumber"@ {
        parsed_i64(without_underscores(n.word()))
    } else {
        first_constant(n.kids)
    }
}

/// The number of the first decimal leaf that holds one.
pub open spec fn first_constant(ns: Seq<NodeV>) -> Option<int>
    decreases ns,
{
    if ns.len() == 0 {
        None
    } else {
        match constant(ns[0]) {
            Some(v) => Some(v),
            None => first_constant(ns.drop_first()),
        }
    }
}

/// A number, if there is one.
pub open spec fn opt_int(o: Option<i64>) -> Option<int> {
    match o {
        Some(v) => Some(v as int),
        None => None,
    }
}

/// The number of the first decimal leaf, at the node or below it, that holds one.
pub fn const_int(n: &Node) -> (r: Option<i64>)
    ensures
        opt_int(r) == constant(n@),
    decreases n,
{
    if has_tag(n, "TK_DecNumber") {
        let t: String = text(n);
        let digits: Vec<char> = strip_underscores(t.as_str());
        return parse_i64(digits.as_slice());
    }
    let mut i: usize = 0;
    assert(n@.kids.skip(0) =~= n@.kids);
    while i < n.kids.len()
        invariant
            i <= n.kids@.len(),
            first_constant(n@.kids) == first_constant(n@.kids.skip(i as int)),
            n@.tag != "TK_DecNumber"@,
        decreases n.kids@.len() - i,
    {
        let ghost rest = n@.kids.skip(i as int);
        assert(rest[0] == n.kids[i as int]@);
        assert(rest.drop_first() =~= n@.kids.skip(i as int + 1));
        assert(decreases_to!(n.kids => n.kids@[i as int]));
        if let Some(v) = const_int(&n.kids[i]) {
            return Some(v);
        }
        i = i + 1;
    }
    None
}

} // verus!
