//! The bucket listing: pages of XML.

use crate::ngx::offer::text_in;
use crate::number::{decimal, lemma_number_of_decimal, number_spec, parse_number};
use crate::text::{chars_of, copy_text, same_text};
use vstd::prelude::*;

verus! {

/// What a node of an XML document is.
pub struct NodeModel {
    pub name: Seq<char>,
    pub text: Option<Seq<char>>,
    pub parent: Option<int>,
}

/// A node of an XML document.
#[derive(Debug)]
pub struct XmlNode {
    /// Tag name without prefix; empty for a node that is no element.
    pub name: String,
    /// Of an element, the text with which its content begins, if it begins
    /// with text; of text or a comment, the text itself.
    pub text: Option<String>,
    /// Position of the parent among the nodes of the document.
    pub parent: Option<usize>,
}

impl View for XmlNode {
    type V = NodeModel;

    open spec fn view(&self) -> NodeModel {
        NodeModel {
            name: self.name@,
            text: text_in(self.text),
            parent: match self.parent {
                Some(p) => Some(p as int),
                None => None,
            },
        }
    }
}

/// What a list of nodes is.
pub open spec fn node_models(v: Seq<XmlNode>) -> Seq<NodeModel> {
    v.map_values(|n: XmlNode| n@)
}

/// What `roxmltree` reads in a text: the nodes of the document, in document
/// order, or the message that says why the text is no document.
pub uninterp spec fn xml_document(body: Seq<char>) -> Result<Seq<NodeModel>, Seq<char>>;

/// `roxmltree::Document::parse`, with the nodes that `descendants` of the
/// document gives, each with the local part of its `tag_name`, its `text`,
/// and the id of its `parent`. The result is a function of the text alone.
#[verifier::external_body]
fn read_xml(body: &str) -> (r: Result<Vec<XmlNode>, String>)
    ensures
        match r {
            Ok(nodes) => xml_document(body@) == Ok::<Seq<NodeModel>, Seq<char>>(
                node_models(nodes@),
            ),
            Err(e) => xml_document(body@) == Err::<Seq<NodeModel>, Seq<char>>(e@),
        },
{
    let doc = roxmltree::Document::parse(body).map_err(|e| e.to_string())?;
    let nodes = doc.descendants().map(
        |n| XmlNode {
            name: n.tag_name().name().to_string(),
            text: n.text().map(|t| t.to_string()),
            parent: n.parent().map(|p| p.id().get_usize()),
        },
    );
    Ok(nodes.collect())
}

/// The first node at or behind `from` that has the name and, where one is
/// given, the parent.
pub open spec fn find_node(
    nodes: Seq<NodeModel>,
    parent: Option<int>,
    name: Seq<char>,
    from: int,
) -> Option<int>
    decreases nodes.len() - from,
{
    if from >= nodes.len() {
        None
    } else if nodes[from].name == name && (parent is None || nodes[from].parent == parent) {
        Some(from)
    } else {
        find_node(nodes, parent, name, from + 1)
    }
}

/// The text of the first child of that name.
pub open spec fn child_text_spec(nodes: Seq<NodeModel>, parent: int, name: Seq<char>) -> Option<
    Seq<char>,
> {
    match find_node(nodes, Some(parent), name, 0) {
        Some(i) => nodes[i].text,
        None => None,
    }
}

/// The text of the first child of that name.
pub fn child_text<'a>(nodes: &'a Vec<XmlNode>, parent: usize, name: &str) -> (r: Option<&'a str>)
    ensures
        match r {
            Some(t) => child_text_spec(node_models(nodes@), parent as int, name@) == Some(t@),
            None => child_text_spec(node_models(nodes@), parent as int, name@) is None,
        },
{
    let ghost all = node_models(nodes@);
    let ghost whose = Some(parent as int);
    let mut i: usize = 0;
    while i < nodes.len()
        invariant
            i <= nodes@.len(),
            all == node_models(nodes@),
            whose == Some(parent as int),
            find_node(all, whose, name@, 0) == find_node(all, whose, name@, i as int),
        decreases nodes@.len() - i,
    {
        assert(all[i as int] == nodes@[i as int]@);
        let mine = match nodes[i].parent {
            Some(p) => p == parent,
            None => false,
        };
        if mine && same_text(nodes[i].name.as_str(), name) {
            return match &nodes[i].text {
                Some(t) => Some(t.as_str()),
                None => None,
            };
        }
        i = i + 1;
    }
    None
}

/// What a page of the listing is: the objects by key and size, and what asks
/// for the next page.
pub struct PageModel {
    pub objects: Seq<(Seq<char>, u64)>,
    pub token: Seq<char>,
}

/// A page of the listing.
#[derive(Debug)]
pub struct ListingPage {
    pub objects: Vec<(String, u64)>,
    /// Empty on the last page.
    pub token: String,
}

/// What a list of objects is.
pub open spec fn object_models(v: Seq<(String, u64)>) -> Seq<(Seq<char>, u64)> {
    v.map_values(|o: (String, u64)| (o.0@, o.1))
}

impl View for ListingPage {
    type V = PageModel;

    open spec fn view(&self) -> PageModel {
        PageModel { objects: object_models(self.objects@), token: self.token@ }
    }
}

/// A size as the server writes it; zero if it is no number.
pub open spec fn size_spec(text: Option<Seq<char>>) -> u64 {
    match text {
        Some(t) => match number_spec(t, u64::MAX as nat) {
            Some(n) => n as u64,
            None => 0,
        },
        None => 0,
    }
}

/// A size as the server writes it; zero if it is no number.
pub fn read_size(text: Option<&str>) -> (r: u64)
    ensures
        r == size_spec(
            match text {
                Some(t) => Some(t@),
                None => None,
            },
        ),
{
    match text {
        Some(t) => {
            let cs = chars_of(t);
            match parse_number(cs.as_slice(), u64::MAX) {
                Some(n) => n,
                None => 0,
            }
        },
        None => 0,
    }
}

/// The objects that the nodes from `i` on list: each `Contents` with its
/// `Key` and `Size`, where the key is not empty.
pub open spec fn objects_from(nodes: Seq<NodeModel>, i: int) -> Seq<(Seq<char>, u64)>
    decreases nodes.len() - i,
{
    if i >= nodes.len() {
        seq![]
    } else if nodes[i].name == "Contents"@ {
        match child_text_spec(nodes, i, "Key"@) {
            Some(key) => if key.len() > 0 {
                seq![(key, size_spec(child_text_spec(nodes, i, "Size"@)))] + objects_from(
                    nodes,
                    i + 1,
                )
            } else {
                objects_from(nodes, i + 1)
            },
            None => objects_from(nodes, i + 1),
        }
    } else {
        objects_from(nodes, i + 1)
    }
}

/// What asks for the next page: the text of the first
/// `NextContinuationToken`; empty if there is none.
pub open spec fn token_spec(nodes: Seq<NodeModel>) -> Seq<char> {
    match find_node(nodes, None, "NextContinuationToken"@, 0) {
        Some(i) => match nodes[i].text {
            Some(t) => t,
            None => seq![],
        },
        None => seq![],
    }
}

/// The page that the nodes of a listing document make.
pub open spec fn page_spec(nodes: Seq<NodeModel>) -> PageModel {
    PageModel { objects: objects_from(nodes, 0), token: token_spec(nodes) }
}

/// What asks for the next page.
fn read_token(nodes: &Vec<XmlNode>) -> (r: String)
    ensures
        r@ == token_spec(node_models(nodes@)),
{
    let ghost all = node_models(nodes@);
    let ghost name = "NextContinuationToken"@;
    let mut i: usize = 0;
    while i < nodes.len()
        invariant
            i <= nodes@.len(),
            all == node_models(nodes@),
            name == "NextContinuationToken"@,
            find_node(all, None, name, 0) == find_node(all, None, name, i as int),
        decreases nodes@.len() - i,
    {
        assert(all[i as int] == nodes@[i as int]@);
        if same_text(nodes[i].name.as_str(), "NextContinuationToken") {
            return match &nodes[i].text {
                Some(t) => copy_text(t.as_str()),
                None => String::new(),
            };
        }
        i = i + 1;
    }
    String::new()
}

/// The page that the nodes of a listing document make.
pub fn read_page(nodes: &Vec<XmlNode>) -> (r: ListingPage)
    ensures
        r@ == page_spec(node_models(nodes@)),
{
    let ghost all = node_models(nodes@);
    let mut objects: Vec<(String, u64)> = Vec::new();
    let mut i: usize = 0;
    assert(object_models(objects@) + objects_from(all, 0) =~= objects_from(all, 0));
    while i < nodes.len()
        invariant
            i <= nodes@.len(),
            all == node_models(nodes@),
            object_models(objects@) + objects_from(all, i as int) == objects_from(all, 0),
        decreases nodes@.len() - i,
    {
        assert(all[i as int] == nodes@[i as int]@);
        let ghost before = object_models(objects@);
        if same_text(nodes[i].name.as_str(), "Contents") {
            let size = read_size(child_text(nodes, i, "Size"));
            match child_text(nodes, i, "Key") {
                Some(key) => if !key.is_empty() {
                    objects.push((copy_text(key), size));
                    assert(object_models(objects@) =~= before + seq![(key@, size)]);
                    assert(object_models(objects@) + objects_from(all, i + 1) =~= before
                        + objects_from(all, i as int));
                },
                None => {},
            }
        }
        i = i + 1;
    }
    assert(object_models(objects@) =~= objects_from(all, 0));
    let token = read_token(nodes);
    ListingPage { objects, token }
}

/// Reads a page of the listing; fails with the message of the XML parser.
pub fn parse_listing(body: &str) -> (r: Result<ListingPage, String>)
    ensures
        match r {
            Ok(page) => xml_document(body@) matches Ok(nodes) && page@ == page_spec(nodes),
            Err(e) => xml_document(body@) == Err::<Seq<NodeModel>, Seq<char>>(e@),
        },
{
    match read_xml(body) {
        Ok(nodes) => Ok(read_page(&nodes)),
        Err(e) => Err(e),
    }
}

// ---------------------------------------------------------------------------
// Laws
// ---------------------------------------------------------------------------


/// The search finds the first node that has the name and the parent.
proof fn lemma_find_first(
    nodes: Seq<NodeModel>,
    parent: Option<int>,
    name: Seq<char>,
    from: int,
    k: int,
)
    requires
        0 <= from <= k < nodes.len(),
        nodes[k].name == name,
        parent is None || nodes[k].parent == parent,
        forall|j: int|
            from <= j < k ==> (#[trigger] nodes[j]).name != name || (parent is Some
                && nodes[j].parent != parent),
    ensures
        find_node(nodes, parent, name, from) == Some(k),
    decreases k - from,
{
    if from < k {
        assert(nodes[from].name != name || (parent is Some && nodes[from].parent != parent));
        lemma_find_first(nodes, parent, name, from + 1, k);
    }
}

/// The search finds nothing where no node has the name and the parent.
proof fn lemma_find_nothing(
    nodes: Seq<NodeModel>,
    parent: Option<int>,
    name: Seq<char>,
    from: int,
)
    requires
        0 <= from,
        forall|j: int|
            from <= j < nodes.len() ==> (#[trigger] nodes[j]).name != name || (parent is Some
                && nodes[j].parent != parent),
    ensures
        find_node(nodes, parent, name, from) is None,
    decreases nodes.len() - from,
{
    if from < nodes.len() {
        assert(nodes[from].name != name || (parent is Some && nodes[from].parent != parent));
        lemma_find_nothing(nodes, parent, name, from + 1);
    }
}

/// The child `k` is the first of that name, wherever it stands in the document.
pub open spec fn first_child(nodes: Seq<NodeModel>, parent: int, name: Seq<char>, k: int) -> bool {
    &&& 0 <= k < nodes.len()
    &&& nodes[k].parent == Some(parent) && nodes[k].name == name
    &&& forall|j: int|
        0 <= j < k ==> !((#[trigger] nodes[j]).parent == Some(parent) && nodes[j].name == name)
}

/// The text of a child is that of the first node, wherever it stands, that has
/// the name and this parent. Where there is no such node, there is no text.
pub proof fn law_child_text(nodes: Seq<NodeModel>, parent: int, name: Seq<char>)
    ensures
        forall|k: int| #[trigger]
            first_child(nodes, parent, name, k) ==> child_text_spec(nodes, parent, name)
                == nodes[k].text,
        (forall|k: int|
            0 <= k < nodes.len() ==> !((#[trigger] nodes[k]).parent == Some(parent)
                && nodes[k].name == name)) ==> child_text_spec(nodes, parent, name) is None,
        child_text_spec(nodes, parent, name) is Some ==> exists|k: int| #[trigger]
            first_child(nodes, parent, name, k) && nodes[k].text is Some,
{
    assert forall|k: int| #[trigger] first_child(nodes, parent, name, k) implies child_text_spec(
        nodes,
        parent,
        name,
    ) == nodes[k].text by {
        lemma_find_first(nodes, Some(parent), name, 0, k);
    }
    if forall|k: int|
        0 <= k < nodes.len() ==> !((#[trigger] nodes[k]).parent == Some(parent) && nodes[k].name
            == name) {
        lemma_find_nothing(nodes, Some(parent), name, 0);
    }
    if child_text_spec(nodes, parent, name) is Some {
        let k = lemma_some_child(nodes, parent, name);
        assert(first_child(nodes, parent, name, k));
    }
}

/// What the search finds is a first child.
proof fn lemma_some_child(nodes: Seq<NodeModel>, parent: int, name: Seq<char>) -> (k: int)
    requires
        find_node(nodes, Some(parent), name, 0) is Some,
    ensures
        find_node(nodes, Some(parent), name, 0) == Some(k),
        first_child(nodes, parent, name, k),
{
    lemma_found_from(nodes, Some(parent), name, 0);
    find_node(nodes, Some(parent), name, 0)->0
}

/// What the search finds from a place on.
proof fn lemma_found_from(nodes: Seq<NodeModel>, parent: Option<int>, name: Seq<char>, from: int)
    requires
        0 <= from,
    ensures
        match find_node(nodes, parent, name, from) {
            Some(k) => {
                &&& from <= k < nodes.len()
                &&& nodes[k].name == name && (parent is None || nodes[k].parent == parent)
                &&& forall|j: int|
                    from <= j < k ==> (#[trigger] nodes[j]).name != name || (parent is Some
                        && nodes[j].parent != parent)
            },
            None => forall|j: int|
                from <= j < nodes.len() ==> (#[trigger] nodes[j]).name != name || (parent is Some
                    && nodes[j].parent != parent),
        },
    decreases nodes.len() - from,
{
    if from < nodes.len() {
        lemma_found_from(nodes, parent, name, from + 1);
    }
}

/// The token of a page is the text of the first `NextContinuationToken`; where
/// there is none, or it has no text, the token is empty.
pub proof fn law_token(nodes: Seq<NodeModel>)
    ensures
        forall|k: int|
            0 <= k < nodes.len() && (#[trigger] nodes[k]).name == "NextContinuationToken"@ && (
            forall|j: int| 0 <= j < k ==> (#[trigger] nodes[j]).name != "NextContinuationToken"@)
                ==> page_spec(nodes).token == (match nodes[k].text {
                Some(t) => t,
                None => Seq::<char>::empty(),
            }),
        (forall|k: int|
            0 <= k < nodes.len() ==> (#[trigger] nodes[k]).name != "NextContinuationToken"@)
            ==> page_spec(nodes).token.len() == 0,
{
    let name = "NextContinuationToken"@;
    assert forall|k: int|
        0 <= k < nodes.len() && (#[trigger] nodes[k]).name == name && (forall|j: int|
            0 <= j < k ==> (#[trigger] nodes[j]).name != name) implies page_spec(nodes).token == (
    match nodes[k].text {
        Some(t) => t,
        None => Seq::<char>::empty(),
    }) by {
        lemma_find_first(nodes, None, name, 0, k);
    }
    if forall|k: int| 0 <= k < nodes.len() ==> (#[trigger] nodes[k]).name != name {
        lemma_find_nothing(nodes, None, name, 0);
    }
}

/// The node lists an object: it is a `Contents` with a `Key` that is not empty.
pub open spec fn lists_object(nodes: Seq<NodeModel>, i: int) -> bool {
    &&& 0 <= i < nodes.len()
    &&& nodes[i].name == "Contents"@
    &&& child_text_spec(nodes, i, "Key"@) is Some
    &&& (child_text_spec(nodes, i, "Key"@)->0).len() > 0
}

/// The objects of a page are those of its `Contents`, all of them with a key,
/// in order, each with its key and, where its `Size` is a number, its size.
pub proof fn law_listed_objects(nodes: Seq<NodeModel>) -> (at: Seq<int>)
    ensures
        page_spec(nodes).objects.len() == at.len(),
        forall|j: int, k: int| 0 <= j < k < at.len() ==> #[trigger] at[j] < #[trigger] at[k],
        forall|i: int| #[trigger] lists_object(nodes, i) <==> at.contains(i),
        forall|k: int|
            0 <= k < at.len() ==> {
                let o = #[trigger] page_spec(nodes).objects[k];
                let size = child_text_spec(nodes, at[k], "Size"@);
                &&& child_text_spec(nodes, at[k], "Key"@) == Some(o.0)
                &&& size is Some && number_spec(size->0, u64::MAX as nat) is Some ==> o.1
                    == number_spec(size->0, u64::MAX as nat)->0
                &&& size is None || number_spec(size->0, u64::MAX as nat) is None ==> o.1 == 0
            },
{
    lemma_objects_from(nodes, 0)
}

/// The objects that the nodes from `i` on list.
proof fn lemma_objects_from(nodes: Seq<NodeModel>, i: int) -> (at: Seq<int>)
    requires
        0 <= i,
    ensures
        objects_from(nodes, i).len() == at.len(),
        forall|j: int, k: int| 0 <= j < k < at.len() ==> #[trigger] at[j] < #[trigger] at[k],
        forall|n: int| (#[trigger] lists_object(nodes, n) && n >= i) <==> at.contains(n),
        forall|k: int|
            0 <= k < at.len() ==> {
                let o = #[trigger] objects_from(nodes, i)[k];
                let size = child_text_spec(nodes, at[k], "Size"@);
                &&& child_text_spec(nodes, at[k], "Key"@) == Some(o.0)
                &&& size is Some && number_spec(size->0, u64::MAX as nat) is Some ==> o.1
                    == number_spec(size->0, u64::MAX as nat)->0
                &&& size is None || number_spec(size->0, u64::MAX as nat) is None ==> o.1 == 0
            },
    decreases nodes.len() - i,
{
    if i >= nodes.len() {
        Seq::<int>::empty()
    } else {
        let rest = lemma_objects_from(nodes, i + 1);
        let later = objects_from(nodes, i + 1);
        let all = objects_from(nodes, i);
        if lists_object(nodes, i) {
            let at = seq![i] + rest;
            assert(all[0].0 == child_text_spec(nodes, i, "Key"@)->0);
            assert forall|j: int, k: int| 0 <= j < k < at.len() implies #[trigger] at[j]
                < #[trigger] at[k] by {
                assert(at[k] == rest[k - 1]);
                let x = rest[k - 1];
                assert(rest.contains(x));
                assert((lists_object(nodes, x) && x >= i + 1) <==> rest.contains(x));
                if j > 0 {
                    assert(at[j] == rest[j - 1]);
                }
            }
            assert forall|n: int| (#[trigger] lists_object(nodes, n) && n >= i) <==> at.contains(
                n,
            ) by {
                assert((lists_object(nodes, n) && n >= i + 1) <==> rest.contains(n));
                if lists_object(nodes, n) && n >= i {
                    if n == i {
                        assert(at[0] == n);
                    } else {
                        assert(rest.contains(n));
                        let k = choose|k: int| 0 <= k < rest.len() && rest[k] == n;
                        assert(at[k + 1] == n);
                    }
                }
                if at.contains(n) {
                    let k = choose|k: int| 0 <= k < at.len() && at[k] == n;
                    if k > 0 {
                        assert(rest[k - 1] == n);
                        assert(rest.contains(n));
                    }
                }
            }
            assert forall|k: int| 0 <= k < at.len() implies {
                let o = #[trigger] all[k];
                let size = child_text_spec(nodes, at[k], "Size"@);
                &&& child_text_spec(nodes, at[k], "Key"@) == Some(o.0)
                &&& size is Some && number_spec(size->0, u64::MAX as nat) is Some ==> o.1
                    == number_spec(size->0, u64::MAX as nat)->0
                &&& size is None || number_spec(size->0, u64::MAX as nat) is None ==> o.1 == 0
            } by {
                if k > 0 {
                    assert(all[k] == later[k - 1]);
                    assert(at[k] == rest[k - 1]);
                }
            }
            at
        } else {
            assert(all == later);
            assert forall|n: int| (#[trigger] lists_object(nodes, n) && n >= i) <==> rest.contains(
                n,
            ) by {
                assert((lists_object(nodes, n) && n >= i + 1) <==> rest.contains(n));
            }
            rest
        }
    }
}

/// A size that is a number in decimal is read as that number; without one, it is zero.
pub proof fn law_read_size(n: u64)
    ensures
        size_spec(Some(decimal(n as nat))) == n,
        size_spec(None) == 0,
        forall|t: Seq<char>|
            number_spec(t, u64::MAX as nat) is None ==> #[trigger] size_spec(Some(t)) == 0,
{
    lemma_number_of_decimal(n as nat, u64::MAX as nat);
}

} // verus!
