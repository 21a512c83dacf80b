use vstd::prelude::*;
use crate::features::{entropy, entropy_of, is_mask};

verus! {

/// One grid cell: a feature vector over the registered tiles. Its identity
/// is the coordinate the grid holds it at; a node starts fully open and only
/// ever narrows.
pub struct Node {
    pub data: Vec<usize>,
}

impl View for Node {
    type V = Seq<usize>;

    open spec fn view(&self) -> Seq<usize> {
        self.data@
    }
}

/// The fully open feature vector of a given width: every tile possible.
pub open spec fn all_open(width: nat) -> Seq<usize> {
    Seq::new(width, |i: int| 1usize)
}

/// The fully open vector's entropy is its width.
pub proof fn lemma_all_open_entropy(width: nat)
    ensures
        all_open(width).len() == width,
        is_mask(all_open(width)),
        entropy_of(all_open(width)) == width,
    decreases width,
{
    if width > 0 {
        lemma_all_open_entropy((width - 1) as nat);
        assert(all_open(width).drop_last() =~= all_open((width - 1) as nat));
    }
}

impl Node {
    /// A canonical node: every slot 0 or 1.
    pub open spec fn wf(&self) -> bool {
        is_mask(self@)
    }

    /// A fully open node of the given feature-vector width.
    pub fn full(width: usize) -> (n: Node)
        ensures
            n@ =~= all_open(width as nat),
            n.wf(),
            n@.len() == width,
    {
        let mut data: Vec<usize> = Vec::new();
        let mut i: usize = 0;
        while i < width
            invariant
                0 <= i <= width,
                data@.len() == i,
                forall|j: int| 0 <= j < i ==> data@[j] == 1usize,
            decreases width - i,
        {
            data.push(1);
            i = i + 1;
        }
        Node { data }
    }

    /// The number of tiles still possible for this cell.
    pub fn get_entropy(&self) -> (e: usize)
        requires
            self.wf(),
        ensures
            e == entropy_of(self@),
    {
        entropy(&self.data)
    }
}

/// A dense two-dimensional grid of nodes with von Neumann adjacency. Cell
/// `(x, y)` lives at index `x * height + y`; out-of-bounds coordinates have
/// no neighbor.
pub struct Grid {
    pub width: usize,
    pub height: usize,
    /// The feature-vector width every cell shares, fixed at construction.
    pub feature_width: usize,
    pub cells: Vec<Node>,
}

impl View for Grid {
    type V = Seq<Seq<usize>>;

    open spec fn view(&self) -> Seq<Seq<usize>> {
        Seq::new(self.cells@.len(), |i: int| self.cells@[i]@)
    }
}

impl Grid {
    /// A well-formed grid has one canonical cell of the configured width per
    /// coordinate.
    pub open spec fn wf(&self) -> bool {
        &&& self@.len() == self.width * self.height
        &&& forall|i: int| 0 <= i < self@.len() ==> is_mask(#[trigger] self@[i])
        &&& forall|i: int| 0 <= i < self@.len() ==> (#[trigger] self@[i]).len()
            == self.feature_width
    }

    /// The flat index of coordinate `(x, y)`.
    pub open spec fn spec_index_of(&self, x: int, y: int) -> int {
        x * self.height + y
    }

    /// Whether `(x, y)` lies on the grid.
    pub open spec fn in_bounds(&self, x: int, y: int) -> bool {
        0 <= x < self.width && 0 <= y < self.height
    }

    /// The flat index of an in-bounds coordinate is a valid cell index.
    pub proof fn lemma_index_in_range(&self, x: int, y: int)
        requires
            self.wf(),
            self.in_bounds(x, y),
        ensures
            0 <= self.spec_index_of(x, y) < self@.len(),
    {
        assert(x * self.height + y < self.width * self.height) by (nonlinear_arith)
            requires 0 <= x < self.width, 0 <= y < self.height;
        assert(0 <= x * self.height) by (nonlinear_arith)
            requires 0 <= x, 0 <= self.height;
    }

    /// A grid of the given dimensions with every cell fully open.
    pub fn new_open(width: usize, height: usize, feature_width: usize) -> (g: Grid)
        requires
            width * height <= usize::MAX,
        ensures
            g.wf(),
            g.width == width,
            g.height == height,
            g.feature_width == feature_width,
            forall|i: int| 0 <= i < g@.len() ==> #[trigger] g@[i] =~= all_open(
                feature_width as nat,
            ),
    {
        proof {
            lemma_all_open_entropy(feature_width as nat);
        }
        let total = width * height;
        let mut cells: Vec<Node> = Vec::new();
        let mut i: usize = 0;
        while i < total
            invariant
                0 <= i <= total,
                cells@.len() == i,
                forall|j: int| 0 <= j < i ==> #[trigger] cells@[j]@ =~= all_open(
                    feature_width as nat,
                ),
            decreases total - i,
        {
            cells.push(Node::full(feature_width));
            i = i + 1;
        }
        Grid { width, height, feature_width, cells }
    }

    /// The flat index of an in-bounds coordinate.
    pub fn index_of(&self, x: usize, y: usize) -> (i: usize)
        requires
            self.wf(),
            self.in_bounds(x as int, y as int),
        ensures
            i == self.spec_index_of(x as int, y as int),
            0 <= i < self@.len(),
    {
        let n = self.cells.len();
        proof {
            self.lemma_index_in_range(x as int, y as int);
            assert(x as int * self.height + y < n);
            assert(0 <= x as int * self.height) by (nonlinear_arith)
                requires 0 <= x, 0 <= self.height;
        }
        x * self.height + y
    }
}

/// How many cells of a grid are still undetermined: in superposition, with
/// entropy above 1.
pub open spec fn undetermined_count(g: Seq<Seq<usize>>) -> int
    decreases g.len(),
{
    if g.len() == 0 {
        0
    } else {
        undetermined_count(g.drop_last()) + if entropy_of(g.last()) > 1 {
            1int
        } else {
            0int
        }
    }
}

/// The undetermined count lies between 0 and the number of cells.
pub proof fn lemma_undet_bounds(g: Seq<Seq<usize>>)
    ensures
        0 <= undetermined_count(g) <= g.len(),
    decreases g.len(),
{
    if g.len() > 0 {
        lemma_undet_bounds(g.drop_last());
    }
}

/// If every cell's entropy narrows or stays, the undetermined count cannot
/// grow.
pub proof fn lemma_undet_pointwise(g1: Seq<Seq<usize>>, g2: Seq<Seq<usize>>)
    requires
        g1.len() == g2.len(),
        forall|i: int| 0 <= i < g1.len() ==> entropy_of(#[trigger] g2[i]) <= entropy_of(g1[i]),
    ensures
        undetermined_count(g2) <= undetermined_count(g1),
    decreases g1.len(),
{
    if g1.len() > 0 {
        lemma_undet_pointwise(g1.drop_last(), g2.drop_last());
        assert(entropy_of(g2.last()) <= entropy_of(g1.last()));
    }
}

/// If in addition some undetermined cell becomes determined, the
/// undetermined count strictly falls.
pub proof fn lemma_undet_strict(g1: Seq<Seq<usize>>, g2: Seq<Seq<usize>>, k: int)
    requires
        g1.len() == g2.len(),
        forall|i: int| 0 <= i < g1.len() ==> entropy_of(#[trigger] g2[i]) <= entropy_of(g1[i]),
        0 <= k < g1.len(),
        entropy_of(g1[k]) > 1,
        entropy_of(g2[k]) <= 1,
    ensures
        undetermined_count(g2) < undetermined_count(g1),
    decreases g1.len(),
{
    if k == g1.len() - 1 {
        lemma_undet_pointwise(g1.drop_last(), g2.drop_last());
    } else {
        lemma_undet_strict(g1.drop_last(), g2.drop_last(), k);
        assert(entropy_of(g2.last()) <= entropy_of(g1.last()));
    }
}

} // verus!
