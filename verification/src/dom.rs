//! The page model that host functions read and write: a document of text
//! nodes keyed by selector, and a fetch service limited to one origin.
use vstd::prelude::*;
use std::collections::BTreeMap;
use crate::interop::InteropError;
use crate::text::{chars_of, map_entries, push_str, str_eq, string_from_chars};

verus! {

/// A selector and the text of its node, as characters.
pub type NodeModel = (Seq<char>, Seq<char>);

/// The position of the first node for `selector`.
pub open spec fn node_index(nodes: Seq<NodeModel>, selector: Seq<char>) -> Option<int>
    decreases nodes.len(),
{
    if nodes.len() == 0 {
        None
    } else if nodes[0].0 == selector {
        Some(0)
    } else {
        match node_index(nodes.drop_first(), selector) {
            Some(i) => Some(i + 1),
            None => None,
        }
    }
}

/// The text of the node for `selector`, if there is one.
pub open spec fn node_text(nodes: Seq<NodeModel>, selector: Seq<char>) -> Option<Seq<char>> {
    match node_index(nodes, selector) {
        Some(i) => Some(nodes[i].1),
        None => None,
    }
}

/// `nodes` with the text of `selector`'s node set to `text`; a node is added
/// at the end when there is none.
pub open spec fn with_text(nodes: Seq<NodeModel>, selector: Seq<char>, text: Seq<char>) -> Seq<NodeModel> {
    match node_index(nodes, selector) {
        Some(i) => nodes.update(i, (selector, text)),
        None => nodes.push((selector, text)),
    }
}

/// `nodes` after setting each `(selector, text)` of `pairs`, in order.
pub open spec fn with_texts(nodes: Seq<NodeModel>, pairs: Seq<NodeModel>) -> Seq<NodeModel>
    decreases pairs.len(),
{
    if pairs.len() == 0 {
        nodes
    } else {
        with_text(with_texts(nodes, pairs.drop_last()), pairs.last().0, pairs.last().1)
    }
}

/// What `node_index` finds: the first node with the selector, or none.
pub proof fn lemma_node_index(nodes: Seq<NodeModel>, selector: Seq<char>)
    ensures
        match node_index(nodes, selector) {
            Some(i) => 0 <= i < nodes.len() && nodes[i].0 == selector && forall|j: int|
                0 <= j < i ==> nodes[j].0 != selector,
            None => forall|j: int| 0 <= j < nodes.len() ==> nodes[j].0 != selector,
        },
    decreases nodes.len(),
{
    if nodes.len() > 0 && nodes[0].0 != selector {
        lemma_node_index(nodes.drop_first(), selector);
        assert forall|j: int| 0 < j < nodes.len() implies nodes[j] == nodes.drop_first()[j - 1] by {}
    }
}

/// `node_index` is the first position holding the selector.
pub proof fn lemma_node_index_at(nodes: Seq<NodeModel>, selector: Seq<char>, i: int)
    requires
        0 <= i <= nodes.len(),
        i < nodes.len() ==> nodes[i].0 == selector,
        forall|j: int| 0 <= j < i ==> nodes[j].0 != selector,
    ensures
        node_index(nodes, selector) == if i < nodes.len() {
            Some(i)
        } else {
            None::<int>
        },
    decreases i,
{
    if i > 0 {
        lemma_node_index_at(nodes.drop_first(), selector, i - 1);
    }
}

/// A text read after it was set gives back what was set.
pub proof fn law_text_after_set_text(nodes: Seq<NodeModel>, selector: Seq<char>, text: Seq<char>)
    ensures
        node_text(with_text(nodes, selector, text), selector) == Some(text),
{
    lemma_node_index(nodes, selector);
    let after = with_text(nodes, selector, text);
    match node_index(nodes, selector) {
        Some(i) => lemma_node_index_at(after, selector, i),
        None => lemma_node_index_at(after, selector, nodes.len() as int),
    }
}

/// Setting the text of one selector leaves every other selector's text as it was.
pub proof fn law_set_text_keeps_other_nodes(
    nodes: Seq<NodeModel>,
    selector: Seq<char>,
    text: Seq<char>,
    other: Seq<char>,
)
    requires
        other != selector,
    ensures
        node_text(with_text(nodes, selector, text), other) == node_text(nodes, other),
{
    lemma_node_index(nodes, selector);
    lemma_node_index(nodes, other);
    let after = with_text(nodes, selector, text);
    match node_index(nodes, other) {
        Some(i) => lemma_node_index_at(after, other, i),
        None => lemma_node_index_at(after, other, after.len() as int),
    }
}

/// The text nodes of a page, keyed by selector.
#[derive(Debug, Clone, PartialEq, Eq)]
pub struct Document {
    nodes: Vec<(String, String)>,
}

impl View for Document {
    type V = Seq<NodeModel>;

    closed spec fn view(&self) -> Seq<NodeModel> {
        self.nodes@.map_values(|node: (String, String)| (node.0@, node.1@))
    }
}

impl Document {
    /// A document without nodes.
    pub fn new() -> (document: Self)
        ensures
            document@ == Seq::<NodeModel>::empty(),
    {
        let document = Document { nodes: Vec::new() };
        assert(document@ =~= Seq::<NodeModel>::empty());
        document
    }

    /// A document whose nodes hold the given texts, set in order.
    pub fn from_text_nodes<const N: usize>(nodes: [(&str, &str); N]) -> (document: Self)
        ensures
            document@ == with_texts(Seq::empty(), nodes@.map_values(|p: (&str, &str)| (p.0@, p.1@))),
    {
        let ghost pairs = nodes@.map_values(|p: (&str, &str)| (p.0@, p.1@));
        let mut document = Document::new();
        let mut i: usize = 0;
        assert(pairs.take(0) =~= Seq::<NodeModel>::empty());
        while i < N
            invariant
                i <= N,
                nodes@.len() == N,
                pairs == nodes@.map_values(|p: (&str, &str)| (p.0@, p.1@)),
                document@ == with_texts(Seq::empty(), pairs.take(i as int)),
            decreases N - i,
        {
            let (selector, text) = nodes[i];
            document.set_text(selector, text);
            assert(pairs.take(i + 1).drop_last() =~= pairs.take(i as int));
            i += 1;
        }
        assert(pairs.take(N as int) =~= pairs);
        document
    }

    /// The text of the node for `selector`, if there is one.
    pub fn text(&self, selector: &str) -> (text: Option<String>)
        ensures
            match node_text(self@, selector@) {
                Some(t) => text matches Some(s) && s@ == t,
                None => text is None,
            },
    {
        let mut i: usize = 0;
        while i < self.nodes.len()
            invariant
                i <= self.nodes@.len(),
                forall|j: int| 0 <= j < i ==> self@[j].0 != selector@,
            decreases self.nodes.len() - i,
        {
            if str_eq(self.nodes[i].0.as_str(), selector) {
                proof {
                    lemma_node_index_at(self@, selector@, i as int);
                }
                return Some(self.nodes[i].1.clone());
            }
            i += 1;
        }
        proof {
            lemma_node_index_at(self@, selector@, i as int);
        }
        None
    }

    /// Sets the text of the node for `selector`, adding the node when there is none.
    pub fn set_text(&mut self, selector: &str, text: &str)
        ensures
            final(self)@ == with_text(old(self)@, selector@, text@),
    {
        let mut i: usize = 0;
        while i < self.nodes.len()
            invariant
                i <= self.nodes@.len(),
                self@ == old(self)@,
                forall|j: int| 0 <= j < i ==> self@[j].0 != selector@,
            decreases self.nodes.len() - i,
        {
            if str_eq(self.nodes[i].0.as_str(), selector) {
                proof {
                    lemma_node_index_at(self@, selector@, i as int);
                }
                self.nodes.set(i, (selector.to_owned(), text.to_owned()));
                assert(self@ =~= old(self)@.update(i as int, (selector@, text@)));
                return;
            }
            i += 1;
        }
        proof {
            lemma_node_index_at(self@, selector@, i as int);
        }
        self.nodes.push((selector.to_owned(), text.to_owned()));
        assert(self@ =~= old(self)@.push((selector@, text@)));
    }
}

impl Default for Document {
    fn default() -> (document: Self)
        ensures
            document@ == Seq::<NodeModel>::empty(),
    {
        Document::new()
    }
}

/// The path a fetch of `url` reads on a page at `origin`: an absolute path
/// as it is, a URL on the page's origin without the origin; anything else is refused.
pub open spec fn fetch_path(origin: Seq<char>, url: Seq<char>) -> Result<Seq<char>, Seq<char>> {
    if url.len() > 0 && url[0] == '/' {
        Ok(url)
    } else if !(origin.len() <= url.len() && url.take(origin.len() as int) == origin) {
        Err("cross-origin fetch blocked for `"@ + url + "`"@)
    } else {
        let path = url.skip(origin.len() as int);
        if path.len() > 0 && path[0] == '/' {
            Ok(path)
        } else {
            Err("invalid fetch URL `"@ + url + "`"@)
        }
    }
}

/// Text resources served to a page from its own origin.
#[derive(Debug, Clone, PartialEq, Eq)]
pub struct FetchService {
    origin: String,
    resources: BTreeMap<String, String>,
}

impl FetchService {
    /// The origin the page was served from.
    pub closed spec fn origin(&self) -> Seq<char> {
        self.origin@
    }

    /// The resources, keyed by path.
    pub closed spec fn resources(&self) -> Map<String, String> {
        self.resources@
    }

    /// A service for `origin` serving `resources`.
    pub fn new(origin: &str, resources: BTreeMap<String, String>) -> (service: Self)
        ensures
            service.origin() == origin@,
            service.resources() == resources@,
    {
        FetchService { origin: origin.to_owned(), resources }
    }

    /// The text of the resource that `url` names, fetched from the page's own
    /// origin: cross-origin and malformed URLs are refused, and a path
    /// without a resource is reported.
    #[verifier::loop_isolation(false)]
    pub fn text(&self, url: &str) -> (r: Result<String, InteropError>)
        ensures
            match fetch_path(self.origin(), url@) {
                Err(message) => r matches Err(e) && e.message@ == message,
                Ok(path) => if exists|k: String| #[trigger] self.resources().contains_key(k) && k@ == path {
                    r matches Ok(text) && exists|k: String|
                        #[trigger] self.resources().contains_key(k) && k@ == path && self.resources()[k]@ == text@
                } else {
                    r matches Err(e) && e.message@ == "fetch resource `"@ + path + "` not found"@
                },
            },
    {
        let path = match self.same_origin_path(url) {
            Ok(path) => path,
            Err(error) => return Err(error),
        };
        let entries = map_entries(&self.resources);
        let mut i: usize = 0;
        while i < entries.len()
            invariant
                i <= entries@.len(),
                forall|j: int| 0 <= j < i ==> entries@[j].0@ != path@,
            decreases entries.len() - i,
        {
            if str_eq(entries[i].0.as_str(), path.as_str()) {
                proof {
                    assert(self.resources().contains_key(entries@[i as int].0));
                }
                return Ok(entries[i].1.clone());
            }
            i += 1;
        }
        proof {
            assert forall|k: String| #[trigger] self.resources().contains_key(k) implies k@ != path@ by {
                let w = choose|w: int| 0 <= w < entries@.len() && entries@[w].0 == k;
            }
        }
        let mut text: Vec<char> = Vec::new();
        push_str(&mut text, "fetch resource `");
        push_str(&mut text, path.as_str());
        push_str(&mut text, "` not found");
        Err(InteropError { message: string_from_chars(text) })
    }

    fn same_origin_path(&self, url: &str) -> (r: Result<String, InteropError>)
        ensures
            match fetch_path(self.origin(), url@) {
                Ok(path) => r matches Ok(p) && p@ == path,
                Err(message) => r matches Err(e) && e.message@ == message,
            },
    {
        let chars = chars_of(url);
        if chars.len() > 0 && chars[0] == '/' {
            return Ok(url.to_owned());
        }
        let origin = chars_of(self.origin.as_str());
        let mut prefix = origin.len() <= chars.len();
        let mut i: usize = 0;
        while prefix && i < origin.len()
            invariant
                origin@ == self.origin(),
                chars@ == url@,
                prefix ==> origin.len() <= chars.len(),
                i <= origin.len(),
                prefix ==> forall|j: int| 0 <= j < i ==> chars@[j] == origin@[j],
                !prefix ==> !(origin@.len() <= chars@.len() && chars@.take(origin@.len() as int) == origin@),
            decreases origin.len() - i + if prefix { 1int } else { 0int },
        {
            if chars[i] != origin[i] {
                assert(chars@.take(origin@.len() as int)[i as int] != origin@[i as int]);
                prefix = false;
            } else {
                i += 1;
            }
        }
        if !prefix {
            let mut text: Vec<char> = Vec::new();
            push_str(&mut text, "cross-origin fetch blocked for `");
            push_str(&mut text, url);
            push_str(&mut text, "`");
            return Err(InteropError { message: string_from_chars(text) });
        }
        assert(chars@.take(origin@.len() as int) =~= origin@);
        let mut path: Vec<char> = Vec::new();
        let mut k = origin.len();
        while k < chars.len()
            invariant
                origin.len() <= k <= chars.len(),
                path@ == chars@.subrange(origin.len() as int, k as int),
            decreases chars.len() - k,
        {
            path.push(chars[k]);
            k += 1;
        }
        assert(path@ =~= url@.skip(origin@.len() as int));
        if path.len() > 0 && path[0] == '/' {
            Ok(string_from_chars(path))
        } else {
            let mut text: Vec<char> = Vec::new();
            push_str(&mut text, "invalid fetch URL `");
            push_str(&mut text, url);
            push_str(&mut text, "`");
            Err(InteropError { message: string_from_chars(text) })
        }
    }
}

} // verus!
