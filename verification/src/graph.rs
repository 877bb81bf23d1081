use vstd::prelude::*;
use crate::content::FileContent;
use crate::file::File;
use crate::note::links_of;
use crate::id::Id;
use crate::preview::{FilePreview, PreviewV};

verus! {

/// The mathematical value of an edge.
pub struct EdgeV {
    pub from: Seq<char>,
    pub to: Seq<char>,
}

/// A forward link between two documents.
#[derive(Debug)]
pub struct Edge {
    pub from: Id,
    pub to: Id,
}

impl View for Edge {
    type V = EdgeV;

    open spec fn view(&self) -> EdgeV {
        EdgeV { from: self.from@, to: self.to@ }
    }
}

impl Clone for Edge {
    fn clone(&self) -> (r: Self)
        ensures
            r@ == self@,
    {
        Edge { from: self.from.clone(), to: self.to.clone() }
    }
}

/// One node of the graph: an id, and its preview once the document behind
/// it has been visited. A node holding no preview is a phantom: referenced
/// by a link, not (yet) backed by a document.
#[derive(Debug)]
pub struct GraphNode {
    pub id: Id,
    pub preview: Option<FilePreview>,
}

/// What the graph knows of an id: nothing, a phantom, or a preview.
pub open spec fn node_state_of(n: GraphNode) -> Option<PreviewV> {
    match n.preview {
        None => None,
        Some(p) => Some(p@),
    }
}

/// The first node carrying `id`, if any.
pub open spec fn find_node(ns: Seq<GraphNode>, id: Seq<char>) -> Option<GraphNode>
    decreases ns.len(),
{
    if ns.len() == 0 {
        None
    } else if ns[0].id@ == id {
        Some(ns[0])
    } else {
        find_node(ns.drop_first(), id)
    }
}

/// Whether `id` has a node, and with which preview: nothing when the id is
/// unknown, `Some(None)` for a phantom, `Some(Some(p))` for a resolved
/// node.
pub open spec fn node_state(ns: Seq<GraphNode>, id: Seq<char>) -> Option<Option<PreviewV>> {
    match find_node(ns, id) {
        None => None,
        Some(n) => Some(node_state_of(n)),
    }
}

/// The id graph: nodes keyed by id, and forward edges. Every edge endpoint
/// has a node (a phantom at least): the graph invariant.
#[derive(Debug)]
pub struct Graph {
    pub nodes: Vec<GraphNode>,
    pub edges: Vec<Edge>,
}

/// The graph invariant: node ids are unique, and both ends of every edge
/// have a node.
pub open spec fn well_formed(g: Graph) -> bool {
    &&& forall|i: int, j: int|
        0 <= i < j < g.nodes@.len() ==> #[trigger] g.nodes@[i].id@ != #[trigger] g.nodes@[j].id@
    &&& forall|k: int|
        0 <= k < g.edges@.len() ==> node_state(g.nodes@, #[trigger] g.edges@[k]@.from) is Some
            && node_state(g.nodes@, g.edges@[k]@.to) is Some
}

impl Graph {
    /// The empty graph; well-formed.
    pub fn new() -> (r: Graph)
        ensures
            r.nodes@.len() == 0,
            r.edges@.len() == 0,
            well_formed(r),
    {
        let r = Graph { nodes: Vec::new(), edges: Vec::new() };
        proof {
            assert(well_formed(r));
        }
        r
    }

    /// The preview stored for `id`: nothing for an unknown id and for a
    /// phantom alike.
    pub fn get_node(&self, id: &Id) -> (r: Option<&FilePreview>)
        ensures
            match r {
                Some(p) => node_state(self.nodes@, id@) == Some(Some(p@)),
                None => node_state(self.nodes@, id@) is None || node_state(self.nodes@, id@)
                    == Some(None::<PreviewV>),
            },
    {
        match self.find(id) {
            Some(i) => {
                match &self.nodes[i].preview {
                    Some(p) => Some(p),
                    None => None,
                }
            },
            None => None,
        }
    }

    /// The position of the node carrying `id`, if any.
    fn find(&self, id: &Id) -> (r: Option<usize>)
        ensures
            match r {
                Some(i) => i < self.nodes@.len() && find_node(self.nodes@, id@) == Some(
                    self.nodes@[i as int],
                ) && self.nodes@[i as int].id@ == id@,
                None => find_node(self.nodes@, id@) is None,
            },
    {
        let n: usize = self.nodes.len();
        let mut i: usize = 0;
        proof {
            assert(self.nodes@.skip(0) =~= self.nodes@);
        }
        while i < n
            invariant
                i <= n,
                n == self.nodes@.len(),
                find_node(self.nodes@, id@) == find_node(self.nodes@.skip(i as int), id@),
            decreases n - i,
        {
            proof {
                let tail = self.nodes@.skip(i as int);
                assert(tail[0] == self.nodes@[i as int]);
                assert(tail.drop_first() =~= self.nodes@.skip(i + 1 as int));
            }
            if self.nodes[i].id.eq(id) {
                return Some(i);
            }
            i = i + 1;
        }
        proof {
            assert(self.nodes@.skip(n as int) =~= Seq::<GraphNode>::empty());
        }
        None
    }

    /// Stores (or upgrades to) a resolved node for the preview's id; any
    /// other id keeps its state, edges stay, and well-formedness is
    /// preserved.
    pub fn add_node(&mut self, node: FilePreview)
        requires
            well_formed(*old(self)),
        ensures
            node_state(final(self).nodes@, node.id@) == Some(Some(node@)),
            forall|o: Seq<char>|
                o != node.id@ ==> #[trigger] node_state(final(self).nodes@, o) == node_state(
                    old(self).nodes@,
                    o,
                ),
            final(self).edges@ == old(self).edges@,
            well_formed(*final(self)),
    {
        let ghost oldnodes = self.nodes@;
        let found = self.find(&node.id);
        let ghost idv = node.id@;
        match found {
            Some(i) => {
                proof {
                    lemma_first_carrier(oldnodes, idv, i as int);
                }
                let slot = GraphNode { id: node.id.clone(), preview: Some(node) };
                self.nodes.set(i, slot);
                proof {
                    lemma_set_node_state(oldnodes, self.nodes@, i as int, idv);
                    assert forall|a: int, b: int|
                        0 <= a < b < self.nodes@.len() implies #[trigger] self.nodes@[a].id@
                        != #[trigger] self.nodes@[b].id@ by {
                        if a != i as int {
                            assert(self.nodes@[a] == oldnodes[a]);
                        }
                        if b != i as int {
                            assert(self.nodes@[b] == oldnodes[b]);
                        }
                    }
                    lemma_wf_edges(oldnodes, self.nodes@, self.edges@, idv);
                }
            },
            None => {
                proof {
                    lemma_find_node_first(oldnodes, idv);
                }
                let slot = GraphNode { id: node.id.clone(), preview: Some(node) };
                self.nodes.push(slot);
                proof {
                    lemma_push_node_state(oldnodes, idv, self.nodes@[oldnodes.len() as int]);
                    assert forall|a: int, b: int|
                        0 <= a < b < self.nodes@.len() implies #[trigger] self.nodes@[a].id@
                        != #[trigger] self.nodes@[b].id@ by {
                        if b == oldnodes.len() {
                            assert(self.nodes@[a] == oldnodes[a]);
                            assert(oldnodes[a].id@ != idv);
                        } else {
                            assert(self.nodes@[a] == oldnodes[a]);
                            assert(self.nodes@[b] == oldnodes[b]);
                        }
                    }
                    lemma_wf_edges(oldnodes, self.nodes@, self.edges@, idv);
                }
            },
        }
    }

    /// Makes sure both ends have a node, writing phantoms for unknown ids
    /// (a resolved node keeps its preview), then appends the edge; any
    /// other id keeps its state, and well-formedness is preserved.
    pub fn add_edge(&mut self, from: Id, to: Id)
        requires
            well_formed(*old(self)),
        ensures
            node_state(final(self).nodes@, from@) == Some(
                match node_state(old(self).nodes@, from@) {
                    Some(Some(p)) => Some(p),
                    _ => None::<PreviewV>,
                },
            ),
            node_state(final(self).nodes@, to@) == (if to@ == from@ {
                node_state(final(self).nodes@, from@)
            } else {
                Some(
                    match node_state(old(self).nodes@, to@) {
                        Some(Some(p)) => Some(p),
                        _ => None::<PreviewV>,
                    },
                )
            }),
            forall|o: Seq<char>|
                o != from@ && o != to@ ==> #[trigger] node_state(final(self).nodes@, o)
                    == node_state(old(self).nodes@, o),
            final(self).edges@.len() == old(self).edges@.len() + 1,
            forall|k: int|
                0 <= k < old(self).edges@.len() ==> final(self).edges@[k] == #[trigger] old(
                    self,
                ).edges@[k],
            final(self).edges@[old(self).edges@.len() as int]@ == (EdgeV {
                from: from@,
                to: to@,
            }),
            well_formed(*final(self)),
    {
        self.ensure_node(&from);
        self.ensure_node(&to);
        let e = Edge { from, to };
        self.edges.push(e);
    }

    /// Makes sure `id` has a node, writing a phantom when it has none; a
    /// present node, phantom or resolved, stays as it is.
    fn ensure_node(&mut self, id: &Id)
        requires
            well_formed(*old(self)),
        ensures
            node_state(final(self).nodes@, id@) == Some(
                match node_state(old(self).nodes@, id@) {
                    Some(Some(p)) => Some(p),
                    _ => None::<PreviewV>,
                },
            ),
            forall|o: Seq<char>|
                o != id@ ==> #[trigger] node_state(final(self).nodes@, o) == node_state(
                    old(self).nodes@,
                    o,
                ),
            final(self).edges@ == old(self).edges@,
            well_formed(*final(self)),
    {
        let ghost oldnodes = self.nodes@;
        let ghost idv = id@;
        let present = self.get_node_present(id);
        if !present {
            let found = self.find(id);
            match found {
                Some(i) => {
                    proof {
                        lemma_first_carrier(oldnodes, idv, i as int);
                    }
                    let slot = GraphNode { id: id.clone(), preview: None };
                    self.nodes.set(i, slot);
                    proof {
                        lemma_set_node_state(oldnodes, self.nodes@, i as int, idv);
                        assert forall|a: int, b: int|
                            0 <= a < b < self.nodes@.len() implies #[trigger] self.nodes@[
                            a].id@ != #[trigger] self.nodes@[b].id@ by {
                            if a != i as int {
                                assert(self.nodes@[a] == oldnodes[a]);
                            }
                            if b != i as int {
                                assert(self.nodes@[b] == oldnodes[b]);
                            }
                        }
                        lemma_wf_edges(oldnodes, self.nodes@, self.edges@, idv);
                    }
                },
                None => {
                    proof {
                        lemma_find_node_first(oldnodes, idv);
                    }
                    let slot = GraphNode { id: id.clone(), preview: None };
                    self.nodes.push(slot);
                    proof {
                        lemma_push_node_state(
                            oldnodes,
                            idv,
                            self.nodes@[oldnodes.len() as int],
                        );
                        assert forall|a: int, b: int|
                            0 <= a < b < self.nodes@.len() implies #[trigger] self.nodes@[
                            a].id@ != #[trigger] self.nodes@[b].id@ by {
                            if b == oldnodes.len() {
                                assert(self.nodes@[a] == oldnodes[a]);
                                assert(oldnodes[a].id@ != idv);
                            } else {
                                assert(self.nodes@[a] == oldnodes[a]);
                                assert(self.nodes@[b] == oldnodes[b]);
                            }
                        }
                        lemma_wf_edges(oldnodes, self.nodes@, self.edges@, idv);
                    }
                },
            }
        }
    }

    /// Whether `id` has a resolved node.
    fn get_node_present(&self, id: &Id) -> (r: bool)
        ensures
            r == (node_state(self.nodes@, id@) matches Some(Some(_))),
    {
        let g = self.get_node(id);
        match g {
            Some(_) => true,
            None => false,
        }
    }

    /// The stored previews, in node order: phantoms as nothing.
    pub fn get_node_list(&self) -> (r: Vec<Option<FilePreview>>)
        ensures
            r@.len() == self.nodes@.len(),
            forall|k: int|
                0 <= k < r@.len() ==> (match #[trigger] r@[k] {
                    Some(p) => node_state_of(self.nodes@[k]) == Some(p@),
                    None => node_state_of(self.nodes@[k]) is None,
                }),
    {
        let n: usize = self.nodes.len();
        let mut r: Vec<Option<FilePreview>> = Vec::new();
        let mut i: usize = 0;
        while i < n
            invariant
                i <= n,
                n == self.nodes@.len(),
                r@.len() == i,
                forall|k: int|
                    0 <= k < i ==> (match #[trigger] r@[k] {
                        Some(p) => node_state_of(self.nodes@[k]) == Some(p@),
                        None => node_state_of(self.nodes@[k]) is None,
                    }),
            decreases n - i,
        {
            match &self.nodes[i].preview {
                Some(p) => r.push(Some(p.clone())),
                None => r.push(None),
            }
            i = i + 1;
        }
        r
    }

    /// The edges, in insertion order.
    pub fn get_edge_list(&self) -> (r: Vec<Edge>)
        ensures
            r@.len() == self.edges@.len(),
            forall|k: int| 0 <= k < r@.len() ==> #[trigger] r@[k]@ == self.edges@[k]@,
    {
        let n: usize = self.edges.len();
        let mut r: Vec<Edge> = Vec::new();
        let mut i: usize = 0;
        while i < n
            invariant
                i <= n,
                n == self.edges@.len(),
                r@.len() == i,
                forall|k: int| 0 <= k < i ==> #[trigger] r@[k]@ == self.edges@[k]@,
            decreases n - i,
        {
            r.push(self.edges[i].clone());
            i = i + 1;
        }
        r
    }

    /// Folds the documents of one traversal into the graph: every document
    /// becomes a resolved node, and every link found in a note body
    /// becomes an edge from the note, in document and scanning order, with
    /// a phantom node for any target not (yet) resolved. The graph
    /// invariant holds of the result.
    pub fn build_graph(files: &Vec<File>, notes_dir: &str) -> (r: Graph)
        ensures
            well_formed(r),
            forall|k: int|
                0 <= k < files@.len() ==> node_state(
                    r.nodes@,
                    #[trigger] files@[k].id@,
                ) is Some,
            r.edges@.map_values(|e: Edge| e@) == edges_of_files(files@, notes_dir@),
    {
        let ghost rootv = notes_dir@;
        let mut g = Graph::new();
        let n: usize = files.len();
        let mut i: usize = 0;
        proof {
            assert(files@.skip(0) =~= files@);
            assert(g.edges@.map_values(|e: Edge| e@) =~= Seq::<EdgeV>::empty());
            assert(Seq::<EdgeV>::empty() + edges_of_files(files@, rootv) =~= edges_of_files(
                files@,
                rootv,
            ));
        }
        while i < n
            invariant
                i <= n,
                n == files@.len(),
                rootv == notes_dir@,
                well_formed(g),
                forall|k: int|
                    0 <= k < i ==> node_state(g.nodes@, #[trigger] files@[k].id@) is Some,
                g.edges@.map_values(|e: Edge| e@) + edges_of_files(files@.skip(i as int), rootv)
                    == edges_of_files(files@, rootv),
            decreases n - i,
        {
            proof {
                let tail = files@.skip(i as int);
                assert(tail[0] == files@[i as int]);
                assert(tail.drop_first() =~= files@.skip(i + 1 as int));
            }
            let f = &files[i];
            g.add_node(f.get_preview());
            match &f.content {
                FileContent::Note(note) => {
                    let links = note.find_links(notes_dir);
                    let ghost linkv = links@.map_values(|x: Id| x@);
                    let ghost fedges = edge_seq_of(files@[i as int].id@, linkv);
                    proof {
                        assert(edges_of_file(files@[i as int], rootv) == fedges);
                    }
                    let m: usize = links.len();
                    let mut j: usize = 0;
                    while j < m
                        invariant
                            j <= m,
                            m == links@.len(),
                            rootv == notes_dir@,
                            linkv == links@.map_values(|x: Id| x@),
                            fedges == edge_seq_of(files@[i as int].id@, linkv),
                            fedges.len() == m,
                            well_formed(g),
                            forall|k: int|
                                0 <= k < i ==> node_state(
                                    g.nodes@,
                                    #[trigger] files@[k].id@,
                                ) is Some,
                            node_state(g.nodes@, files@[i as int].id@) is Some,
                            g.edges@.map_values(|e: Edge| e@) + fedges.skip(j as int)
                                + edges_of_files(files@.skip(i + 1 as int), rootv)
                                == edges_of_files(files@, rootv),
                        decreases m - j,
                    {
                        let ghost ev = g.edges@.map_values(|e: Edge| e@);
                        g.add_edge(f.id.clone(), links[j].clone());
                        proof {
                            assert(g.edges@.map_values(|e: Edge| e@) =~= ev.push(
                                g.edges@.last()@,
                            ));
                            assert(g.edges@.last()@ == fedges[j as int]);
                            assert(fedges.skip(j as int)[0] == fedges[j as int]);
                            assert(fedges.skip(j as int).drop_first() =~= fedges.skip(
                                j + 1 as int,
                            ));
                            assert(fedges.skip(j as int) =~= seq![fedges[j as int]]
                                + fedges.skip(j + 1 as int));
                            assert(ev.push(fedges[j as int]) + fedges.skip(j + 1 as int)
                                + edges_of_files(files@.skip(i + 1 as int), rootv) =~= ev + (
                            seq![fedges[j as int]] + fedges.skip(j + 1 as int)
                                + edges_of_files(files@.skip(i + 1 as int), rootv)));
                            assert(ev + (seq![fedges[j as int]] + fedges.skip(j + 1 as int)
                                + edges_of_files(files@.skip(i + 1 as int), rootv)) =~= ev + (
                            fedges.skip(j as int) + edges_of_files(
                                files@.skip(i + 1 as int),
                                rootv,
                            )));
                        }
                        j = j + 1;
                    }
                    proof {
                        assert(fedges.skip(m as int) =~= Seq::<EdgeV>::empty());
                        assert(g.edges@.map_values(|e: Edge| e@) + Seq::<EdgeV>::empty()
                            + edges_of_files(files@.skip(i + 1 as int), rootv) =~= g.edges@
                            .map_values(|e: Edge| e@) + edges_of_files(
                            files@.skip(i + 1 as int),
                            rootv,
                        ));
                    }
                },
                _ => {
                    proof {
                        assert(edges_of_file(files@[i as int], rootv) =~= Seq::<
                            EdgeV,
                        >::empty());
                        assert(Seq::<EdgeV>::empty() + edges_of_files(
                            files@.skip(i + 1 as int),
                            rootv,
                        ) =~= edges_of_files(files@.skip(i + 1 as int), rootv));
                    }
                },
            }
            i = i + 1;
        }
        proof {
            assert(files@.skip(n as int) =~= Seq::<File>::empty());
            assert(g.edges@.map_values(|e: Edge| e@) + Seq::<EdgeV>::empty() =~= g.edges@
                .map_values(|e: Edge| e@));
        }
        g
    }
}

/// The edges one document contributes: one forward edge per resolved link
/// of a note body, in scanning order; no edges for any other type.
pub open spec fn edges_of_file(f: File, root: Seq<char>) -> Seq<EdgeV> {
    match f.content {
        FileContent::Note(n) => edge_seq_of(f.id@, links_of(n@, root)),
        _ => Seq::<EdgeV>::empty(),
    }
}

/// The edges from one note id to each of its resolved targets, in order.
pub open spec fn edge_seq_of(id: Seq<char>, targets: Seq<Seq<char>>) -> Seq<EdgeV> {
    targets.map_values(|t: Seq<char>| EdgeV { from: id, to: t })
}

/// The edges of a run of documents, in document order.
pub open spec fn edges_of_files(fs: Seq<File>, root: Seq<char>) -> Seq<EdgeV>
    decreases fs.len(),
{
    if fs.len() == 0 {
        Seq::<EdgeV>::empty()
    } else {
        edges_of_file(fs[0], root) + edges_of_files(fs.drop_first(), root)
    }
}

/// `find_node` returns the first match: a position whose node carries the
/// id, with no earlier carrier.
proof fn lemma_find_node_first(ns: Seq<GraphNode>, id: Seq<char>)
    ensures
        match find_node(ns, id) {
            Some(n) => exists|i: int|
                0 <= i < ns.len() && ns[i] == n && ns[i].id@ == id && forall|j: int|
                    0 <= j < i ==> #[trigger] ns[j].id@ != id,
            None => forall|j: int| 0 <= j < ns.len() ==> #[trigger] ns[j].id@ != id,
        },
    decreases ns.len(),
{
    if ns.len() > 0 && ns[0].id@ != id {
        let tail = ns.drop_first();
        lemma_find_node_first(tail, id);
        assert(forall|j: int| 1 <= j < ns.len() ==> ns[j] == #[trigger] tail[j - 1]);
        match find_node(tail, id) {
            Some(n) => {
                let i = choose|i: int|
                    0 <= i < tail.len() && tail[i] == n && tail[i].id@ == id && forall|j: int|
                        0 <= j < i ==> #[trigger] tail[j].id@ != id;
                assert(ns[i + 1] == n);
                assert forall|j: int| 0 <= j < i + 1 implies #[trigger] ns[j].id@ != id by {
                    if j >= 1 {
                        assert(ns[j] == tail[j - 1]);
                        assert(tail[j - 1].id@ != id);
                    }
                }
                assert(0 <= i + 1 < ns.len() && ns[i + 1] == n && ns[i + 1].id@ == id
                    && forall|j: int| 0 <= j < i + 1 ==> #[trigger] ns[j].id@ != id);
            },
            None => {
                assert forall|j: int| 0 <= j < ns.len() implies #[trigger] ns[j].id@ != id by {
                    if j >= 1 {
                        assert(ns[j] == tail[j - 1]);
                        assert(tail[j - 1].id@ != id);
                    }
                }
            },
        }
    }
}

/// Overwriting the first carrier of an id with a new node carrying the
/// same id leaves every id's presence as it was, except that the written
/// id now holds the new node.
proof fn lemma_set_node_state(
    oldns: Seq<GraphNode>,
    newns: Seq<GraphNode>,
    i: int,
    id: Seq<char>,
)
    requires
        0 <= i < oldns.len(),
        newns == oldns.update(i, newns[i]),
        newns.len() == oldns.len(),
        oldns[i].id@ == id,
        newns[i].id@ == id,
        forall|j: int| 0 <= j < i ==> #[trigger] oldns[j].id@ != id,
    ensures
        node_state(newns, id) == Some(node_state_of(newns[i])),
        forall|o: Seq<char>|
            o != id ==> #[trigger] node_state(newns, o) == node_state(oldns, o),
    decreases oldns.len(),
{
    if i == 0 {
        assert(newns[0].id@ == id);
        assert forall|o: Seq<char>| o != id implies #[trigger] node_state(newns, o)
            == node_state(oldns, o) by {
            assert(newns.drop_first() =~= oldns.drop_first());
        }
    } else {
        assert(oldns[0].id@ != id);
        assert(newns[0] == oldns[0]);
        assert(newns.drop_first()[i - 1] == newns[i]);
        assert(newns.drop_first() =~= oldns.drop_first().update(i - 1, newns.drop_first()[i
            - 1]));
        lemma_set_node_state(oldns.drop_first(), newns.drop_first(), i - 1, id);
        assert forall|o: Seq<char>| o != id implies #[trigger] node_state(newns, o)
            == node_state(oldns, o) by {
            if oldns[0].id@ != o {
                assert(node_state(newns, o) == node_state(newns.drop_first(), o));
            }
        }
    }
}

/// Appending a node for an id that had none makes that id present and
/// leaves every other id's state as it was.
proof fn lemma_push_node_state(oldns: Seq<GraphNode>, id: Seq<char>, slot: GraphNode)
    requires
        find_node(oldns, id) is None,
        slot.id@ == id,
    ensures
        node_state(oldns.push(slot), id) == Some(node_state_of(slot)),
        forall|o: Seq<char>|
            o != id ==> #[trigger] node_state(oldns.push(slot), o) == node_state(oldns, o),
    decreases oldns.len(),
{
    let s = oldns.push(slot);
    if oldns.len() == 0 {
        assert(s[0] == slot);
        assert forall|o: Seq<char>| o != id implies #[trigger] node_state(s, o) == node_state(
            oldns,
            o,
        ) by {
            assert(s[0].id@ != o);
            assert(find_node(s, o) == find_node(s.drop_first(), o));
            assert(s.drop_first() =~= Seq::<GraphNode>::empty());
            assert(find_node(Seq::<GraphNode>::empty(), o) is None);
            assert(find_node(oldns, o) is None);
        }
    } else {
        assert(s[0] == oldns[0]);
        assert(oldns[0].id@ != id);
        assert(s.drop_first() =~= oldns.drop_first().push(slot));
        lemma_push_node_state(oldns.drop_first(), id, slot);
        assert(find_node(s, id) == find_node(s.drop_first(), id));
        assert(node_state(oldns.drop_first().push(slot), id) == Some(node_state_of(slot)));
        assert forall|o: Seq<char>| o != id implies #[trigger] node_state(s, o) == node_state(
            oldns,
            o,
        ) by {
            if s[0].id@ != o {
                assert(find_node(s, o) == find_node(s.drop_first(), o));
                assert(find_node(oldns, o) == find_node(oldns.drop_first(), o));
                assert(node_state(oldns.drop_first().push(slot), o) == node_state(
                    oldns.drop_first(),
                    o,
                ));
            }
        }
    }
}

/// With unique ids, the carrier of an id is the only one.
proof fn lemma_first_carrier(ns: Seq<GraphNode>, id: Seq<char>, i: int)
    requires
        forall|a: int, b: int|
            0 <= a < b < ns.len() ==> #[trigger] ns[a].id@ != #[trigger] ns[b].id@,
        0 <= i < ns.len(),
        ns[i].id@ == id,
    ensures
        forall|j: int| 0 <= j < ns.len() && j != i ==> #[trigger] ns[j].id@ != id,
{
    assert forall|j: int| 0 <= j < ns.len() && j != i implies #[trigger] ns[j].id@ != id by {
        if j < i {
            assert(ns[j].id@ != ns[i].id@);
        } else {
            assert(ns[i].id@ != ns[j].id@);
        }
    }
}

/// A node change that keeps every id present keeps every edge endpoint
/// present.
proof fn lemma_wf_edges(
    oldns: Seq<GraphNode>,
    newns: Seq<GraphNode>,
    edges: Seq<Edge>,
    id: Seq<char>,
)
    requires
        forall|k: int|
            0 <= k < edges.len() ==> node_state(oldns, #[trigger] edges[k]@.from) is Some
                && node_state(oldns, edges[k]@.to) is Some,
        node_state(newns, id) is Some,
        forall|o: Seq<char>|
            o != id ==> #[trigger] node_state(newns, o) == node_state(oldns, o),
    ensures
        forall|k: int|
            0 <= k < edges.len() ==> node_state(newns, #[trigger] edges[k]@.from) is Some
                && node_state(newns, edges[k]@.to) is Some,
{
    assert forall|k: int|
        0 <= k < edges.len() implies node_state(newns, #[trigger] edges[k]@.from) is Some
        && node_state(newns, edges[k]@.to) is Some by {
        let f = edges[k]@.from;
        let t = edges[k]@.to;
        if f != id {
            assert(node_state(newns, f) == node_state(oldns, f));
        }
        if t != id {
            assert(node_state(newns, t) == node_state(oldns, t));
        }
    }
}

} // verus!
