use vstd::prelude::*;

verus! {

use vstd::multiset::Multiset;

use crate::strings::contains_seq;
use crate::strings::str_contains;

/// One unit of testable work, tied to a source path. The `data` payload is
/// whatever the collection strategy attached to the test.
#[derive(Debug, Clone)]
pub struct CollectedTest<T> {
    /// Fully resolved name of the test.
    pub name: String,
    /// Path to the test file.
    pub path: String,
    /// Zero-indexed line and column of the test in the file.
    pub line_and_column: Option<(u32, u32)>,
    /// Data associated with the test that may have been
    /// set by the collection strategy.
    pub data: T,
}

/// A child of a category: either a nested category or a test.
#[derive(Debug)]
pub enum CollectedCategoryOrTest<T> {
    Category(CollectedTestCategory<T>),
    Test(CollectedTest<T>),
}

/// A named node grouping child tests and sub-categories.
#[derive(Debug)]
pub struct CollectedTestCategory<T> {
    /// Fully resolved name of the test category.
    pub name: String,
    /// Path to the test category. May be a file or directory
    /// depending on how the test strategy collects tests.
    pub path: String,
    /// Children of the category.
    pub children: Vec<CollectedCategoryOrTest<T>>,
}

/// Mathematical shape of a tree node: category names and paths as character
/// sequences, tests as the collected values themselves.
#[verifier::ext_equal]
pub enum TreeNode<T> {
    Category { name: Seq<char>, path: Seq<char>, children: Seq<TreeNode<T>> },
    Test(CollectedTest<T>),
}

pub open spec fn node_view<T>(n: CollectedCategoryOrTest<T>) -> TreeNode<T>
    decreases n, 0nat,
{
    match n {
        CollectedCategoryOrTest::Category(c) => cat_view(c),
        CollectedCategoryOrTest::Test(t) => TreeNode::Test(t),
    }
}

pub open spec fn cat_view<T>(c: CollectedTestCategory<T>) -> TreeNode<T>
    decreases c, 1nat,
{
    TreeNode::Category {
        name: c.name@,
        path: c.path@,
        children: children_view(c.children@),
    }
}

pub open spec fn children_view<T>(cs: Seq<CollectedCategoryOrTest<T>>) -> Seq<TreeNode<T>>
    decreases cs, 2nat,
{
    if cs.len() == 0 {
        Seq::empty()
    } else {
        seq![node_view(cs[0])] + children_view(cs.drop_first())
    }
}

pub broadcast proof fn lemma_children_view_len<T>(cs: Seq<CollectedCategoryOrTest<T>>)
    ensures
        (#[trigger] children_view(cs)).len() == cs.len(),
    decreases cs.len(),
{
    if cs.len() > 0 {
        lemma_children_view_len(cs.drop_first());
    }
}

pub broadcast proof fn lemma_children_view_index<T>(cs: Seq<CollectedCategoryOrTest<T>>, i: int)
    requires
        0 <= i < cs.len(),
    ensures
        #[trigger] children_view(cs)[i] == node_view(cs[i]),
    decreases cs.len(),
{
    lemma_children_view_len(cs);
    if i > 0 {
        lemma_children_view_index(cs.drop_first(), i - 1);
    }
}

impl<T> View for CollectedCategoryOrTest<T> {
    type V = TreeNode<T>;

    open spec fn view(&self) -> TreeNode<T> {
        node_view(*self)
    }
}

impl<T> View for CollectedTestCategory<T> {
    type V = TreeNode<T>;

    open spec fn view(&self) -> TreeNode<T> {
        cat_view(*self)
    }
}

/// Number of test leaves reachable beneath a node.
pub open spec fn node_count<T>(n: TreeNode<T>) -> nat
    decreases n, 0nat,
{
    match n {
        TreeNode::Test(_) => 1,
        TreeNode::Category { children, .. } => nodes_count(children),
    }
}

pub open spec fn nodes_count<T>(ns: Seq<TreeNode<T>>) -> nat
    decreases ns, 1nat,
{
    if ns.len() == 0 {
        0
    } else {
        node_count(ns[0]) + nodes_count(ns.drop_first())
    }
}

/// The test leaves beneath a node, in left-to-right discovery order.
pub open spec fn node_tests<T>(n: TreeNode<T>) -> Seq<CollectedTest<T>>
    decreases n, 0nat,
{
    match n {
        TreeNode::Test(t) => seq![t],
        TreeNode::Category { children, .. } => nodes_tests(children),
    }
}

pub open spec fn nodes_tests<T>(ns: Seq<TreeNode<T>>) -> Seq<CollectedTest<T>>
    decreases ns, 1nat,
{
    if ns.len() == 0 {
        Seq::empty()
    } else {
        node_tests(ns[0]) + nodes_tests(ns.drop_first())
    }
}

pub broadcast proof fn lemma_nodes_count_singleton<T>(n: TreeNode<T>)
    ensures
        #[trigger] nodes_count(seq![n]) == node_count(n),
{
    assert(seq![n].drop_first() =~= Seq::<TreeNode<T>>::empty());
    assert(nodes_count(Seq::<TreeNode<T>>::empty()) == 0);
    assert(seq![n][0] == n);
}

pub broadcast proof fn lemma_nodes_tests_singleton<T>(n: TreeNode<T>)
    ensures
        #[trigger] nodes_tests(seq![n]) == node_tests(n),
{
    assert(seq![n].drop_first() =~= Seq::<TreeNode<T>>::empty());
    assert(nodes_tests(Seq::<TreeNode<T>>::empty()) =~= Seq::<CollectedTest<T>>::empty());
    assert(seq![n][0] == n);
    assert(nodes_tests(seq![n]) =~= node_tests(n));
}

pub broadcast proof fn lemma_nodes_count_append<T>(a: Seq<TreeNode<T>>, b: Seq<TreeNode<T>>)
    ensures
        #[trigger] nodes_count(a + b) == nodes_count(a) + nodes_count(b),
    decreases a.len(),
{
    if a.len() == 0 {
        assert(a + b =~= b);
    } else {
        assert((a + b).drop_first() =~= a.drop_first() + b);
        lemma_nodes_count_append(a.drop_first(), b);
    }
}

pub broadcast proof fn lemma_nodes_tests_append<T>(a: Seq<TreeNode<T>>, b: Seq<TreeNode<T>>)
    ensures
        #[trigger] nodes_tests(a + b) == nodes_tests(a) + nodes_tests(b),
    decreases a.len(),
{
    if a.len() == 0 {
        assert(a + b =~= b);
        assert(nodes_tests(a) + nodes_tests(b) =~= nodes_tests(b));
    } else {
        assert((a + b).drop_first() =~= a.drop_first() + b);
        lemma_nodes_tests_append(a.drop_first(), b);
        assert(nodes_tests(a + b) =~= nodes_tests(a) + nodes_tests(b));
    }
}

/// A category counts exactly its reachable test leaves: the count of a node
/// is the length of its test sequence.
pub proof fn lemma_count_is_tests_len<T>(n: TreeNode<T>)
    ensures
        node_count(n) == node_tests(n).len(),
    decreases n, 1nat,
{
    match n {
        TreeNode::Test(_) => {}
        TreeNode::Category { children, .. } => {
            lemma_nodes_count_is_tests_len(children);
        }
    }
}

pub proof fn lemma_nodes_count_is_tests_len<T>(ns: Seq<TreeNode<T>>)
    ensures
        nodes_count(ns) == nodes_tests(ns).len(),
    decreases ns, 2nat,
{
    if ns.len() > 0 {
        lemma_count_is_tests_len(ns[0]);
        lemma_nodes_count_is_tests_len(ns.drop_first());
    }
}

fn node_test_count<T>(node: &CollectedCategoryOrTest<T>) -> (r: usize)
    requires
        node_count(node@) <= usize::MAX,
    ensures
        r as nat == node_count(node@),
    decreases *node,
{
    match node {
        CollectedCategoryOrTest::Test(_) => 1,
        CollectedCategoryOrTest::Category(c) => {
            let ghost cs = children_view(c.children@);
            proof {
                lemma_children_view_len(c.children@);
            }
            let mut total: usize = 0;
            let mut i: usize = 0;
            while i < c.children.len()
                invariant
                    cs == children_view(c.children@),
                    node_view(*node) == cat_view(*c),
                    *node == CollectedCategoryOrTest::Category(*c),
                    nodes_count(cs) <= usize::MAX,
                    0 <= i <= c.children.len(),
                    cs.len() == c.children.len(),
                    total as nat == nodes_count(cs.take(i as int)),
                decreases c.children.len() - i,
            {
                let child = &c.children[i];
                proof {
                    lemma_children_view_index(c.children@, i as int);
                    assert(*child == c.children@[i as int]);
                    assert(decreases_to!(*c => c.children));
                    assert(decreases_to!(c.children => c.children@));
                    assert(decreases_to!(c.children@ => c.children@[i as int]));
                    assert(cs.take(i + 1) =~= cs.take(i as int) + seq![cs[i as int]]);
                    lemma_nodes_count_append(cs.take(i as int), seq![cs[i as int]]);
                    lemma_nodes_count_singleton(cs[i as int]);
                    assert(cs =~= cs.take(i + 1) + cs.skip(i + 1));
                    lemma_nodes_count_append(cs.take(i + 1), cs.skip(i + 1));
                }
                let c_count = node_test_count(child);
                total = total + c_count;
                i = i + 1;
            }
            proof {
                assert(cs.take(cs.len() as int) =~= cs);
            }
            total
        }
    }
}

fn node_is_empty<T>(node: &CollectedCategoryOrTest<T>) -> (r: bool)
    ensures
        r == (node_count(node@) == 0),
    decreases *node,
{
    match node {
        CollectedCategoryOrTest::Test(_) => false,
        CollectedCategoryOrTest::Category(c) => {
            let ghost cs = children_view(c.children@);
            proof {
                lemma_children_view_len(c.children@);
            }
            let mut i: usize = 0;
            while i < c.children.len()
                invariant
                    cs == children_view(c.children@),
                    node_view(*node) == cat_view(*c),
                    *node == CollectedCategoryOrTest::Category(*c),
                    0 <= i <= c.children.len(),
                    cs.len() == c.children.len(),
                    nodes_count(cs.take(i as int)) == 0,
                decreases c.children.len() - i,
            {
                let child = &c.children[i];
                proof {
                    lemma_children_view_index(c.children@, i as int);
                    assert(*child == c.children@[i as int]);
                    assert(decreases_to!(*c => c.children));
                    assert(decreases_to!(c.children => c.children@));
                    assert(decreases_to!(c.children@ => c.children@[i as int]));
                    assert(cs.take(i + 1) =~= cs.take(i as int) + seq![cs[i as int]]);
                    lemma_nodes_count_append(cs.take(i as int), seq![cs[i as int]]);
                    lemma_nodes_count_singleton(cs[i as int]);
                }
                if !node_is_empty(child) {
                    proof {
                        assert(cs =~= cs.take(i + 1) + cs.skip(i + 1));
                        lemma_nodes_count_append(cs.take(i + 1), cs.skip(i + 1));
                    }
                    return false;
                }
                i = i + 1;
            }
            proof {
                assert(cs.take(cs.len() as int) =~= cs);
            }
            true
        }
    }
}

impl<T> CollectedTestCategory<T> {
    /// Number of test leaves reachable beneath this category, recomputed
    /// from the structure on every call.
    pub fn test_count(&self) -> (r: usize)
        requires
            node_count(self@) <= usize::MAX,
        ensures
            r as nat == node_count(self@),
            r as nat == node_tests(self@).len(),
    {
        proof {
            lemma_count_is_tests_len(self@);
            lemma_children_view_len(self.children@);
        }
        let ghost cs = children_view(self.children@);
        let mut total: usize = 0;
        let mut i: usize = 0;
        while i < self.children.len()
            invariant
                cs == children_view(self.children@),
                node_count(cat_view(*self)) <= usize::MAX,
                cat_view(*self) == (TreeNode::Category {
                    name: self.name@,
                    path: self.path@,
                    children: cs,
                }),
                0 <= i <= self.children.len(),
                cs.len() == self.children.len(),
                total as nat == nodes_count(cs.take(i as int)),
            decreases self.children.len() - i,
        {
            let child = &self.children[i];
            proof {
                lemma_children_view_index(self.children@, i as int);
                assert(*child == self.children@[i as int]);
                assert(cs.take(i + 1) =~= cs.take(i as int) + seq![cs[i as int]]);
                lemma_nodes_count_append(cs.take(i as int), seq![cs[i as int]]);
                lemma_nodes_count_singleton(cs[i as int]);
                assert(cs =~= cs.take(i + 1) + cs.skip(i + 1));
                lemma_nodes_count_append(cs.take(i + 1), cs.skip(i + 1));
            }
            let c_count = node_test_count(child);
            total = total + c_count;
            i = i + 1;
        }
        proof {
            assert(cs.take(cs.len() as int) =~= cs);
        }
        total
    }

    /// True when no test is reachable beneath this category.
    pub fn is_empty(&self) -> (r: bool)
        ensures
            r == (node_count(self@) == 0),
    {
        proof {
            lemma_children_view_len(self.children@);
        }
        let ghost cs = children_view(self.children@);
        let mut i: usize = 0;
        while i < self.children.len()
            invariant
                cs == children_view(self.children@),
                cat_view(*self) == (TreeNode::Category {
                    name: self.name@,
                    path: self.path@,
                    children: cs,
                }),
                0 <= i <= self.children.len(),
                cs.len() == self.children.len(),
                nodes_count(cs.take(i as int)) == 0,
            decreases self.children.len() - i,
        {
            let child = &self.children[i];
            proof {
                lemma_children_view_index(self.children@, i as int);
                assert(*child == self.children@[i as int]);
                assert(cs.take(i + 1) =~= cs.take(i as int) + seq![cs[i as int]]);
                lemma_nodes_count_append(cs.take(i as int), seq![cs[i as int]]);
                lemma_nodes_count_singleton(cs[i as int]);
            }
            if !node_is_empty(child) {
                proof {
                    assert(cs =~= cs.take(i + 1) + cs.skip(i + 1));
                    lemma_nodes_count_append(cs.take(i + 1), cs.skip(i + 1));
                }
                return false;
            }
            i = i + 1;
        }
        proof {
            assert(cs.take(cs.len() as int) =~= cs);
        }
        true
    }
}

/// The pruned sequence a child list becomes when tests whose names do not
/// contain the filter are dropped and categories left without tests are
/// removed.
pub open spec fn spec_filter_children<T>(ns: Seq<TreeNode<T>>, f: Seq<char>) -> Seq<TreeNode<T>>
    decreases ns, 1nat,
{
    if ns.len() == 0 {
        Seq::empty()
    } else {
        spec_filter_head(ns[0], f) + spec_filter_children(ns.drop_first(), f)
    }
}

/// What one child contributes after filtering: itself, or nothing.
pub open spec fn spec_filter_head<T>(n: TreeNode<T>, f: Seq<char>) -> Seq<TreeNode<T>>
    decreases n, 0nat,
{
    match n {
        TreeNode::Test(t) => {
            if contains_seq(t.name@, f) {
                seq![n]
            } else {
                Seq::empty()
            }
        }
        TreeNode::Category { name, path, children } => {
            let fc = TreeNode::Category { name, path, children: spec_filter_children(children, f) };
            if node_count(fc) != 0 {
                seq![fc]
            } else {
                Seq::empty()
            }
        }
    }
}

/// The tree a category becomes after filtering: the root always stays,
/// even when every test beneath it is dropped.
pub open spec fn spec_filter_cat<T>(n: TreeNode<T>, f: Seq<char>) -> TreeNode<T> {
    match n {
        TreeNode::Category { name, path, children } => TreeNode::Category {
            name,
            path,
            children: spec_filter_children(children, f),
        },
        TreeNode::Test(_) => n,
    }
}

pub broadcast proof fn lemma_spec_filter_children_append<T>(
    a: Seq<TreeNode<T>>,
    b: Seq<TreeNode<T>>,
    f: Seq<char>,
)
    ensures
        #[trigger] spec_filter_children(a + b, f) == spec_filter_children(a, f)
            + spec_filter_children(b, f),
    decreases a.len(),
{
    if a.len() == 0 {
        assert(a + b =~= b);
        assert(spec_filter_children(a, f) + spec_filter_children(b, f) =~= spec_filter_children(
            b,
            f,
        ));
    } else {
        assert((a + b).drop_first() =~= a.drop_first() + b);
        lemma_spec_filter_children_append(a.drop_first(), b, f);
        assert(spec_filter_children(a + b, f) =~= spec_filter_children(a, f)
            + spec_filter_children(b, f));
    }
}

pub broadcast proof fn lemma_spec_filter_children_singleton<T>(n: TreeNode<T>, f: Seq<char>)
    ensures
        #[trigger] spec_filter_children(seq![n], f) == spec_filter_head(n, f),
{
    assert(seq![n].drop_first() =~= Seq::<TreeNode<T>>::empty());
    assert(spec_filter_children(Seq::<TreeNode<T>>::empty(), f) =~= Seq::<TreeNode<T>>::empty());
    assert(seq![n][0] == n);
    assert(spec_filter_children(seq![n], f) =~= spec_filter_head(n, f));
}

pub broadcast proof fn lemma_children_view_singleton<T>(n: CollectedCategoryOrTest<T>)
    ensures
        #[trigger] children_view(seq![n]) == seq![node_view(n)],
{
    assert(seq![n].drop_first() =~= Seq::<CollectedCategoryOrTest<T>>::empty());
    assert(children_view(Seq::<CollectedCategoryOrTest<T>>::empty()) =~= Seq::<TreeNode<T>>::empty());
    assert(seq![n][0] == n);
    assert(children_view(seq![n]) =~= seq![node_view(n)]);
}

fn filter_node<T>(node: CollectedCategoryOrTest<T>, filter: &str) -> (r: Option<
    CollectedCategoryOrTest<T>,
>)
    ensures
        spec_filter_head(node_view(node), filter@) == (match r {
            Some(kept) => seq![node_view(kept)],
            None => Seq::empty(),
        }),
    decreases node, 0nat,
{
    match node {
        CollectedCategoryOrTest::Test(t) => {
            let keep = str_contains(t.name.as_str(), filter);
            if keep {
                Some(CollectedCategoryOrTest::Test(t))
            } else {
                None
            }
        }
        CollectedCategoryOrTest::Category(c) => {
            let CollectedTestCategory { name, path, children } = c;
            let ghost orig_children = children@;
            let fchildren = filter_nodes(children, filter);
            let cat = CollectedTestCategory { name, path, children: fchildren };
            let keep = !cat.is_empty();
            proof {
                assert(cat_view(cat) == (TreeNode::Category {
                    name: cat.name@,
                    path: cat.path@,
                    children: children_view(cat.children@),
                }));
            }
            if keep {
                Some(CollectedCategoryOrTest::Category(cat))
            } else {
                None
            }
        }
    }
}

fn filter_nodes<T>(nodes: Vec<CollectedCategoryOrTest<T>>, filter: &str) -> (r: Vec<
    CollectedCategoryOrTest<T>,
>)
    ensures
        children_view(r@) == spec_filter_children(children_view(nodes@), filter@),
    decreases nodes@, 1nat,
{
    let mut nodes = nodes;
    let ghost orig = nodes@;
    if nodes.len() == 0 {
        return nodes;
    }
    let first = nodes.remove(0);
    proof {
        assert(first == orig[0]);
        assert(nodes@ =~= orig.drop_first());
        assert(decreases_to!(orig => orig[0]));
        assert(decreases_to!(orig => orig.drop_first())) by {
            vstd::seq::axiom_seq_subrange_decreases(orig, 1, orig.len() as int);
        }
        assert(children_view(orig) =~= seq![node_view(orig[0])] + children_view(
            orig.drop_first(),
        ));
        lemma_spec_filter_children_append(
            seq![node_view(orig[0])],
            children_view(orig.drop_first()),
            filter@,
        );
        lemma_spec_filter_children_singleton(node_view(orig[0]), filter@);
    }
    let head = filter_node(first, filter);
    let mut rest = filter_nodes(nodes, filter);
    match head {
        Some(kept) => {
            let ghost rest_view = rest@;
            rest.insert(0, kept);
            proof {
                assert(rest@[0] == kept);
                assert(rest@.drop_first() =~= rest_view);
                assert(children_view(rest@) =~= seq![node_view(kept)] + children_view(rest_view));
                assert(children_view(rest@) =~= spec_filter_children(children_view(orig), filter@));
            }
            rest
        }
        None => {
            proof {
                assert(Seq::<TreeNode<T>>::empty() + children_view(rest@) =~= children_view(
                    rest@,
                ));
                assert(children_view(rest@) =~= spec_filter_children(children_view(orig), filter@));
            }
            rest
        }
    }
}

/// The flattened child list: every reachable test, as a direct child.
pub open spec fn tests_as_nodes<T>(ts: Seq<CollectedTest<T>>) -> Seq<TreeNode<T>> {
    ts.map_values(|t: CollectedTest<T>| TreeNode::Test(t))
}

/// The tree a category becomes when all nesting is discarded and its
/// reachable tests become its direct children.
pub open spec fn spec_flatten_cat<T>(n: TreeNode<T>) -> TreeNode<T> {
    match n {
        TreeNode::Category { name, path, children } => TreeNode::Category {
            name,
            path,
            children: tests_as_nodes(nodes_tests(children)),
        },
        TreeNode::Test(_) => n,
    }
}

fn collect_tests_into<T>(
    nodes: Vec<CollectedCategoryOrTest<T>>,
    out: &mut Vec<CollectedCategoryOrTest<T>>,
)
    ensures
        children_view(final(out)@) == children_view(old(out)@) + tests_as_nodes(
            nodes_tests(children_view(nodes@)),
        ),
    decreases nodes@, 1nat,
{
    let mut nodes = nodes;
    let ghost orig = nodes@;
    let ghost out0 = out@;
    if nodes.len() == 0 {
        proof {
            assert(children_view(out@) =~= children_view(out0) + tests_as_nodes(
                nodes_tests(children_view(orig)),
            ));
        }
        return ;
    }
    let first = nodes.remove(0);
    proof {
        assert(first == orig[0]);
        assert(nodes@ =~= orig.drop_first());
        assert(decreases_to!(orig => orig[0]));
        assert(decreases_to!(orig => orig.drop_first())) by {
            vstd::seq::axiom_seq_subrange_decreases(orig, 1, orig.len() as int);
        }
        assert(children_view(orig) =~= seq![node_view(orig[0])] + children_view(
            orig.drop_first(),
        ));
        lemma_nodes_tests_append(seq![node_view(orig[0])], children_view(orig.drop_first()));
        lemma_nodes_tests_singleton(node_view(orig[0]));
    }
    match first {
        CollectedCategoryOrTest::Test(t) => {
            let ghost before = out@;
            out.push(CollectedCategoryOrTest::Test(t));
            proof {
                assert(out@ =~= before + seq![CollectedCategoryOrTest::Test(t)]);
                lemma_children_view_append(before, seq![CollectedCategoryOrTest::Test(t)]);
                lemma_children_view_singleton(CollectedCategoryOrTest::Test(t));
            }
        }
        CollectedCategoryOrTest::Category(c) => {
            let CollectedTestCategory { name: _, path: _, children } = c;
            proof {
                assert(decreases_to!(orig[0] => children@));
            }
            collect_tests_into(children, out);
        }
    }
    let ghost mid = out@;
    collect_tests_into(nodes, out);
    proof {
        assert(children_view(out@) =~= children_view(out0) + tests_as_nodes(
            nodes_tests(children_view(orig)),
        ));
    }
}

pub broadcast proof fn lemma_children_view_append<T>(
    a: Seq<CollectedCategoryOrTest<T>>,
    b: Seq<CollectedCategoryOrTest<T>>,
)
    ensures
        #[trigger] children_view(a + b) == children_view(a) + children_view(b),
    decreases a.len(),
{
    if a.len() == 0 {
        assert(a + b =~= b);
        assert(children_view(a) + children_view(b) =~= children_view(b));
    } else {
        assert((a + b).drop_first() =~= a.drop_first() + b);
        lemma_children_view_append(a.drop_first(), b);
        assert(children_view(a + b) =~= children_view(a) + children_view(b));
    }
}

impl<T> CollectedTestCategory<T> {
    /// Retains a test exactly when its full name contains the filter; retains
    /// a sub-category exactly when, after filtering, a test is still
    /// reachable beneath it. The root category itself always stays.
    pub fn filter_children(&mut self, filter: &str)
        ensures
            final(self)@ == spec_filter_cat(old(self)@, filter@),
    {
        let mut taken: Vec<CollectedCategoryOrTest<T>> = Vec::new();
        core::mem::swap(&mut self.children, &mut taken);
        let filtered = filter_nodes(taken, filter);
        self.children = filtered;
    }

    /// Flattens all nested categories and returns a new category containing only tests as direct children.
    /// All subcategories are removed and their tests are moved to the top level.
    pub fn into_flat_category(self) -> (r: Self)
        ensures
            r@ == spec_flatten_cat(self@),
    {
        let CollectedTestCategory { name, path, children } = self;
        let mut flattened_tests: Vec<CollectedCategoryOrTest<T>> = Vec::new();
        collect_tests_into(children, &mut flattened_tests);
        let r = CollectedTestCategory { name, path, children: flattened_tests };
        proof {
            assert(Seq::<TreeNode<T>>::empty() + tests_as_nodes(
                nodes_tests(children_view(children@)),
            ) =~= tests_as_nodes(nodes_tests(children_view(children@))));
            assert(cat_view(r) =~= spec_flatten_cat(cat_view(self)));
        }
        r
    }
}

/// No category in the sequence, at any depth, is left without a reachable
/// test.
pub open spec fn nodes_no_empty_cats<T>(ns: Seq<TreeNode<T>>) -> bool
    decreases ns, 1nat,
{
    if ns.len() == 0 {
        true
    } else {
        node_no_empty_cats(ns[0]) && nodes_no_empty_cats(ns.drop_first())
    }
}

pub open spec fn node_no_empty_cats<T>(n: TreeNode<T>) -> bool
    decreases n, 0nat,
{
    match n {
        TreeNode::Test(_) => true,
        TreeNode::Category { children, .. } => nodes_count(children) > 0 && nodes_no_empty_cats(
            children,
        ),
    }
}

pub broadcast proof fn lemma_nodes_no_empty_cats_append<T>(a: Seq<TreeNode<T>>, b: Seq<TreeNode<T>>)
    ensures
        #[trigger] nodes_no_empty_cats(a + b) == (nodes_no_empty_cats(a) && nodes_no_empty_cats(b)),
    decreases a.len(),
{
    if a.len() == 0 {
        assert(a + b =~= b);
    } else {
        assert((a + b).drop_first() =~= a.drop_first() + b);
        lemma_nodes_no_empty_cats_append(a.drop_first(), b);
    }
}

/// Filtering never leaves an empty category among the retained children.
pub proof fn lemma_filter_children_no_empty_cats<T>(ns: Seq<TreeNode<T>>, f: Seq<char>)
    ensures
        nodes_no_empty_cats(spec_filter_children(ns, f)),
    decreases ns, 1nat,
{
    if ns.len() == 0 {
    } else {
        lemma_filter_children_no_empty_cats(ns.drop_first(), f);
        lemma_filter_head_no_empty_cats(ns[0], f);
        lemma_nodes_no_empty_cats_append(
            spec_filter_head(ns[0], f),
            spec_filter_children(ns.drop_first(), f),
        );
    }
}

pub broadcast proof fn lemma_nodes_no_empty_cats_singleton<T>(n: TreeNode<T>)
    ensures
        #[trigger] nodes_no_empty_cats(seq![n]) == node_no_empty_cats(n),
{
    assert(seq![n].drop_first() =~= Seq::<TreeNode<T>>::empty());
    assert(nodes_no_empty_cats(Seq::<TreeNode<T>>::empty()));
    assert(seq![n][0] == n);
}

pub proof fn lemma_filter_head_no_empty_cats<T>(n: TreeNode<T>, f: Seq<char>)
    ensures
        nodes_no_empty_cats(spec_filter_head(n, f)),
    decreases n, 0nat,
{
    match n {
        TreeNode::Test(t) => {
            if contains_seq(t.name@, f) {
                lemma_nodes_no_empty_cats_singleton(n);
            }
        }
        TreeNode::Category { name, path, children } => {
            let fc = TreeNode::Category { name, path, children: spec_filter_children(children, f) };
            if node_count(fc) != 0 {
                lemma_filter_children_no_empty_cats(children, f);
                lemma_nodes_no_empty_cats_singleton(fc);
                assert(node_no_empty_cats(fc));
            }
        }
    }
}

/// Filtering twice with the same substring yields the same tree as
/// filtering once.
pub proof fn lemma_filter_idempotent<T>(n: TreeNode<T>, f: Seq<char>)
    ensures
        spec_filter_cat(spec_filter_cat(n, f), f) == spec_filter_cat(n, f),
{
    match n {
        TreeNode::Category { name, path, children } => {
            lemma_filter_children_idempotent(children, f);
        }
        TreeNode::Test(_) => {}
    }
}

pub proof fn lemma_filter_children_idempotent<T>(ns: Seq<TreeNode<T>>, f: Seq<char>)
    ensures
        spec_filter_children(spec_filter_children(ns, f), f) == spec_filter_children(ns, f),
    decreases ns, 1nat,
{
    if ns.len() == 0 {
    } else {
        lemma_filter_children_idempotent(ns.drop_first(), f);
        lemma_filter_head_idempotent(ns[0], f);
        lemma_spec_filter_children_append(
            spec_filter_head(ns[0], f),
            spec_filter_children(ns.drop_first(), f),
            f,
        );
    }
}

pub proof fn lemma_filter_head_idempotent<T>(n: TreeNode<T>, f: Seq<char>)
    ensures
        spec_filter_children(spec_filter_head(n, f), f) == spec_filter_head(n, f),
    decreases n, 0nat,
{
    match n {
        TreeNode::Test(t) => {
            if contains_seq(t.name@, f) {
                lemma_spec_filter_children_singleton(n, f);
            }
        }
        TreeNode::Category { name, path, children } => {
            let fc = TreeNode::Category { name, path, children: spec_filter_children(children, f) };
            if node_count(fc) != 0 {
                lemma_spec_filter_children_singleton(fc, f);
                lemma_filter_children_idempotent(children, f);
                assert(spec_filter_head(fc, f) =~= seq![fc]);
            }
        }
    }
}

pub proof fn lemma_tests_of_test_nodes<T>(ts: Seq<CollectedTest<T>>)
    ensures
        nodes_tests(tests_as_nodes(ts)) == ts,
    decreases ts.len(),
{
    if ts.len() == 0 {
        assert(nodes_tests(tests_as_nodes(ts)) =~= ts);
    } else {
        lemma_tests_of_test_nodes(ts.drop_first());
        assert(tests_as_nodes(ts).drop_first() =~= tests_as_nodes(ts.drop_first()));
        assert(tests_as_nodes(ts)[0] == TreeNode::<T>::Test(ts[0]));
        assert(node_tests(tests_as_nodes(ts)[0]) =~= seq![ts[0]]);
        assert(nodes_tests(tests_as_nodes(ts)) =~= ts);
    }
}

/// Flattening preserves the tests, in order, and with them the count;
/// only the category nesting is discarded.
pub proof fn lemma_flatten_preserves_tests<T>(n: TreeNode<T>)
    ensures
        node_tests(spec_flatten_cat(n)) == node_tests(n),
        node_count(spec_flatten_cat(n)) == node_count(n),
{
    match n {
        TreeNode::Test(_) => {}
        TreeNode::Category { name, path, children } => {
            lemma_tests_of_test_nodes(nodes_tests(children));
            lemma_count_is_tests_len(n);
            lemma_count_is_tests_len(spec_flatten_cat(n));
        }
    }
}

/// Flattening a flat category changes nothing.
pub proof fn lemma_flatten_idempotent<T>(n: TreeNode<T>)
    ensures
        spec_flatten_cat(spec_flatten_cat(n)) == spec_flatten_cat(n),
{
    match n {
        TreeNode::Test(_) => {}
        TreeNode::Category { name, path, children } => {
            lemma_tests_of_test_nodes(nodes_tests(children));
            assert(spec_flatten_cat(spec_flatten_cat(n)) =~= spec_flatten_cat(n));
        }
    }
}

/// A flat category has no nested categories at all, so none is empty.
pub proof fn lemma_flatten_no_empty_cats<T>(ts: Seq<CollectedTest<T>>)
    ensures
        nodes_no_empty_cats(tests_as_nodes(ts)),
    decreases ts.len(),
{
    if ts.len() == 0 {
        assert(tests_as_nodes(ts).len() == 0);
    } else {
        lemma_flatten_no_empty_cats(ts.drop_first());
        assert(tests_as_nodes(ts).drop_first() =~= tests_as_nodes(ts.drop_first()));
        assert(tests_as_nodes(ts)[0] == TreeNode::<T>::Test(ts[0]));
        assert(node_no_empty_cats(tests_as_nodes(ts)[0]));
    }
}

/// Every test in the sequence is one the predicate can answer `expected`
/// for: each is a possible input/output pair of the predicate.
pub open spec fn tests_match_pred<T, F: Fn(&CollectedTest<T>) -> bool>(
    ts: Seq<CollectedTest<T>>,
    pred: F,
    expected: bool,
) -> bool {
    forall|i: int| 0 <= i < ts.len() ==> call_ensures(pred, (&ts[i],), expected)
}

/// How the two sides of a partition are arranged, child by child: a test
/// keeps its place, in order, on the side the predicate sent it to; a
/// category appears on a side exactly when a test beneath it landed
/// there, keeping its name, its path, and, recursively, the arrangement
/// of its own children.
pub open spec fn spec_partitioned<T, F: Fn(&CollectedTest<T>) -> bool>(
    orig: Seq<TreeNode<T>>,
    m: Seq<TreeNode<T>>,
    n: Seq<TreeNode<T>>,
    pred: F,
) -> bool
    decreases orig, 1nat,
{
    if orig.len() == 0 {
        m.len() == 0 && n.len() == 0
    } else {
        match orig[0] {
            TreeNode::Test(t) => (call_ensures(pred, (&t,), true) && m.len() > 0 && m[0]
                == orig[0] && spec_partitioned(orig.drop_first(), m.drop_first(), n, pred)) || (
            call_ensures(pred, (&t,), false) && n.len() > 0 && n[0] == orig[0]
                && spec_partitioned(orig.drop_first(), m, n.drop_first(), pred)),
            TreeNode::Category { name, path, children } => {
                ||| (m.len() > 0 && n.len() > 0 && (m[0] matches TreeNode::Category {
                    name: mn,
                    path: mp,
                    children: mc,
                } && (n[0] matches TreeNode::Category { name: nn, path: np, children: nc } && mn
                    == name && mp == path && nn == name && np == path && nodes_count(mc) > 0
                    && nodes_count(nc) > 0 && spec_partitioned(children, mc, nc, pred)
                    && spec_partitioned(orig.drop_first(), m.drop_first(), n.drop_first(), pred))))
                ||| (m.len() > 0 && (m[0] matches TreeNode::Category {
                    name: mn,
                    path: mp,
                    children: mc,
                } && mn == name && mp == path && nodes_count(mc) > 0 && spec_partitioned(
                    children,
                    mc,
                    Seq::empty(),
                    pred,
                ) && spec_partitioned(orig.drop_first(), m.drop_first(), n, pred)))
                ||| (n.len() > 0 && (n[0] matches TreeNode::Category {
                    name: nn,
                    path: np,
                    children: nc,
                } && nn == name && np == path && nodes_count(nc) > 0 && spec_partitioned(
                    children,
                    Seq::empty(),
                    nc,
                    pred,
                ) && spec_partitioned(orig.drop_first(), m, n.drop_first(), pred)))
                ||| (spec_partitioned(children, Seq::empty(), Seq::empty(), pred)
                    && spec_partitioned(orig.drop_first(), m, n, pred))
            },
        }
    }
}

/// A run of children in which no category is empty and no test occurs
/// holds nothing at all.
proof fn lemma_no_empty_zero_count<T>(ns: Seq<TreeNode<T>>)
    requires
        nodes_no_empty_cats(ns),
        nodes_count(ns) == 0,
    ensures
        ns == Seq::<TreeNode<T>>::empty(),
{
    if ns.len() > 0 {
        match ns[0] {
            TreeNode::Test(_) => {
                assert(node_count(ns[0]) == 1);
            }
            TreeNode::Category { .. } => {
                assert(node_no_empty_cats(ns[0]));
                assert(node_count(ns[0]) > 0);
            }
        }
        assert(false);
    }
    assert(ns =~= Seq::<TreeNode<T>>::empty());
}

/// What processing one child contributes to each side: the head nodes a
/// single step appends to the matching and the non-matching side.
spec fn partition_step_ok<T, F: Fn(&CollectedTest<T>) -> bool>(
    head: TreeNode<T>,
    m_head: Seq<CollectedCategoryOrTest<T>>,
    nm_head: Seq<CollectedCategoryOrTest<T>>,
    pred: F,
) -> bool {
    match head {
        TreeNode::Test(t) => (call_ensures(pred, (&t,), true) && m_head == seq![
            CollectedCategoryOrTest::Test(t),
        ] && nm_head == Seq::<CollectedCategoryOrTest<T>>::empty()) || (call_ensures(
            pred,
            (&t,),
            false,
        ) && nm_head == seq![CollectedCategoryOrTest::Test(t)] && m_head == Seq::<
            CollectedCategoryOrTest<T>,
        >::empty()),
        TreeNode::Category { name, path, children } => {
            ||| (m_head.len() == 1 && nm_head.len() == 1 && (children_view(m_head)[0] matches TreeNode::Category {
                name: mn,
                path: mp,
                children: mc,
            } && (children_view(nm_head)[0] matches TreeNode::Category {
                name: nn,
                path: np,
                children: nc,
            } && mn == name && mp == path && nn == name && np == path && nodes_count(mc) > 0
                && nodes_count(nc) > 0 && spec_partitioned(children, mc, nc, pred))))
            ||| (m_head.len() == 1 && nm_head == Seq::<CollectedCategoryOrTest<T>>::empty() && (
            children_view(m_head)[0] matches TreeNode::Category { name: mn, path: mp, children: mc }
                && mn == name && mp == path && nodes_count(mc) > 0 && spec_partitioned(
                children,
                mc,
                Seq::empty(),
                pred,
            )))
            ||| (nm_head.len() == 1 && m_head == Seq::<CollectedCategoryOrTest<T>>::empty() && (
            children_view(nm_head)[0] matches TreeNode::Category {
                name: nn,
                path: np,
                children: nc,
            } && nn == name && np == path && nodes_count(nc) > 0 && spec_partitioned(
                children,
                Seq::empty(),
                nc,
                pred,
            )))
            ||| (m_head == Seq::<CollectedCategoryOrTest<T>>::empty() && nm_head == Seq::<
                CollectedCategoryOrTest<T>,
            >::empty() && spec_partitioned(children, Seq::empty(), Seq::empty(), pred))
        },
    }
}

/// One step followed by a partitioned remainder is a partitioned whole.
proof fn lemma_partition_step<T, F: Fn(&CollectedTest<T>) -> bool>(
    orig_cv: Seq<TreeNode<T>>,
    m_head: Seq<CollectedCategoryOrTest<T>>,
    nm_head: Seq<CollectedCategoryOrTest<T>>,
    a2m: Seq<CollectedCategoryOrTest<T>>,
    a2nm: Seq<CollectedCategoryOrTest<T>>,
    pred: F,
)
    requires
        orig_cv.len() > 0,
        partition_step_ok(orig_cv[0], m_head, nm_head, pred),
        spec_partitioned(orig_cv.drop_first(), children_view(a2m), children_view(a2nm), pred),
    ensures
        spec_partitioned(orig_cv, children_view(m_head + a2m), children_view(nm_head + a2nm), pred),
{
    lemma_children_view_append(m_head, a2m);
    lemma_children_view_append(nm_head, a2nm);
    lemma_children_view_len(m_head);
    lemma_children_view_len(nm_head);
    let mv = children_view(m_head + a2m);
    let nv = children_view(nm_head + a2nm);
    assert(children_view(Seq::<CollectedCategoryOrTest<T>>::empty()) =~= Seq::<
        TreeNode<T>,
    >::empty());
    match orig_cv[0] {
        TreeNode::Test(t) => {
            lemma_children_view_singleton(CollectedCategoryOrTest::Test(t));
            if call_ensures(pred, (&t,), true) && m_head == seq![CollectedCategoryOrTest::Test(t)]
                && nm_head == Seq::<CollectedCategoryOrTest<T>>::empty() {
                assert(mv[0] == orig_cv[0]);
                assert(mv.drop_first() =~= children_view(a2m));
                assert(nv =~= children_view(a2nm));
            } else {
                assert(nv[0] == orig_cv[0]);
                assert(nv.drop_first() =~= children_view(a2nm));
                assert(mv =~= children_view(a2m));
            }
        }
        TreeNode::Category { name, path, children } => {
            if m_head.len() == 1 {
                assert(mv[0] == children_view(m_head)[0]);
                assert(mv.drop_first() =~= children_view(a2m));
            } else {
                assert(m_head == Seq::<CollectedCategoryOrTest<T>>::empty());
                assert(mv =~= children_view(a2m));
            }
            if nm_head.len() == 1 {
                assert(nv[0] == children_view(nm_head)[0]);
                assert(nv.drop_first() =~= children_view(a2nm));
            } else {
                assert(nm_head == Seq::<CollectedCategoryOrTest<T>>::empty());
                assert(nv =~= children_view(a2nm));
            }
            assert(spec_partitioned(orig_cv, mv, nv, pred));
        }
    }
}

fn partition_nodes<T, F: Fn(&CollectedTest<T>) -> bool + Copy>(
    nodes: Vec<CollectedCategoryOrTest<T>>,
    predicate: F,
    m: &mut Vec<CollectedCategoryOrTest<T>>,
    nm: &mut Vec<CollectedCategoryOrTest<T>>,
)
    requires
        forall|t: &CollectedTest<T>| #[trigger] call_requires(predicate, (t,)),
    ensures
        nodes_count(children_view(final(m)@)) + nodes_count(children_view(final(nm)@))
            == nodes_count(children_view(old(m)@)) + nodes_count(children_view(old(nm)@))
            + nodes_count(children_view(nodes@)),
        nodes_tests(children_view(final(m)@)).to_multiset().add(
            nodes_tests(children_view(final(nm)@)).to_multiset(),
        ) == nodes_tests(children_view(old(m)@)).to_multiset().add(
            nodes_tests(children_view(old(nm)@)).to_multiset(),
        ).add(nodes_tests(children_view(nodes@)).to_multiset()),
        tests_match_pred(nodes_tests(children_view(old(m)@)), predicate, true)
            ==> tests_match_pred(nodes_tests(children_view(final(m)@)), predicate, true),
        tests_match_pred(nodes_tests(children_view(old(nm)@)), predicate, false)
            ==> tests_match_pred(nodes_tests(children_view(final(nm)@)), predicate, false),
        nodes_no_empty_cats(children_view(old(m)@)) ==> nodes_no_empty_cats(
            children_view(final(m)@),
        ),
        nodes_no_empty_cats(children_view(old(nm)@)) ==> nodes_no_empty_cats(
            children_view(final(nm)@),
        ),
        final(m)@.len() >= old(m)@.len(),
        final(m)@ == old(m)@ + final(m)@.skip(old(m)@.len() as int),
        final(nm)@.len() >= old(nm)@.len(),
        final(nm)@ == old(nm)@ + final(nm)@.skip(old(nm)@.len() as int),
        spec_partitioned(
            children_view(nodes@),
            children_view(final(m)@.skip(old(m)@.len() as int)),
            children_view(final(nm)@.skip(old(nm)@.len() as int)),
            predicate,
        ),
    decreases nodes@, 1nat,
{
    let mut nodes = nodes;
    let ghost orig = nodes@;
    if nodes.len() == 0 {
        proof {
            assert(children_view(orig).len() == 0);
            assert(m@.skip(m@.len() as int) =~= Seq::<CollectedCategoryOrTest<T>>::empty());
            assert(nm@.skip(nm@.len() as int) =~= Seq::<CollectedCategoryOrTest<T>>::empty());
            assert(m@ =~= m@ + m@.skip(m@.len() as int));
            assert(nm@ =~= nm@ + nm@.skip(nm@.len() as int));
            assert(children_view(m@.skip(m@.len() as int)).len() == 0) by {
                lemma_children_view_len(m@.skip(m@.len() as int));
            }
            assert(children_view(nm@.skip(nm@.len() as int)).len() == 0) by {
                lemma_children_view_len(nm@.skip(nm@.len() as int));
            }
            assert(nodes_tests(children_view(orig)) =~= Seq::<CollectedTest<T>>::empty());
            lemma_to_multiset_empty::<T>();
            assert(nodes_tests(children_view(m@)).to_multiset().add(
                nodes_tests(children_view(nm@)).to_multiset(),
            ).add(nodes_tests(children_view(orig)).to_multiset()) =~= nodes_tests(
                children_view(m@),
            ).to_multiset().add(nodes_tests(children_view(nm@)).to_multiset()));
        }
        return ;
    }
    let first = nodes.remove(0);
    let ghost h = node_tests(node_view(orig[0]));
    proof {
        assert(first == orig[0]);
        assert(nodes@ =~= orig.drop_first());
        assert(decreases_to!(orig => orig[0]));
        assert(decreases_to!(orig => orig.drop_first())) by {
            vstd::seq::axiom_seq_subrange_decreases(orig, 1, orig.len() as int);
        }
        assert(children_view(orig) =~= seq![node_view(orig[0])] + children_view(
            orig.drop_first(),
        ));
        lemma_nodes_count_append(seq![node_view(orig[0])], children_view(orig.drop_first()));
        lemma_nodes_tests_append(seq![node_view(orig[0])], children_view(orig.drop_first()));
        lemma_nodes_count_singleton(node_view(orig[0]));
        lemma_nodes_tests_singleton(node_view(orig[0]));
        vstd::seq_lib::lemma_multiset_commutative(h, nodes_tests(children_view(orig.drop_first())));
    }
    let ghost m0 = m@;
    let ghost nm0 = nm@;
    let ghost cs = children_view(orig);
    let ghost mut m_head: Seq<CollectedCategoryOrTest<T>> = Seq::empty();
    let ghost mut nm_head: Seq<CollectedCategoryOrTest<T>> = Seq::empty();
    proof {
        lemma_children_view_len(orig);
        lemma_children_view_index(orig, 0);
        assert(cs[0] == node_view(orig[0]));
    }
    match first {
        CollectedCategoryOrTest::Test(t) => {
            let ghost t0 = t;
            let matched = predicate(&t);
            proof {
                assert(node_view(CollectedCategoryOrTest::Test(t0)) == TreeNode::<T>::Test(t0));
                assert(h =~= seq![t0]);
            }
            if matched {
                push_node(m, CollectedCategoryOrTest::Test(t));
                proof {
                    m_head = seq![CollectedCategoryOrTest::Test(t0)];
                    assert(partition_step_ok(cs[0], m_head, nm_head, predicate));
                    lemma_pred_extend(
                        nodes_tests(children_view(m0)),
                        t0,
                        nodes_tests(children_view(m@)),
                        predicate,
                        true,
                    );
                }
            } else {
                push_node(nm, CollectedCategoryOrTest::Test(t));
                proof {
                    nm_head = seq![CollectedCategoryOrTest::Test(t0)];
                    assert(partition_step_ok(cs[0], m_head, nm_head, predicate));
                    lemma_pred_extend(
                        nodes_tests(children_view(nm0)),
                        t0,
                        nodes_tests(children_view(nm@)),
                        predicate,
                        false,
                    );
                }
            }
            proof {
                assert(nodes_tests(children_view(m@)).to_multiset().add(
                    nodes_tests(children_view(nm@)).to_multiset(),
                ) =~= nodes_tests(children_view(m0)).to_multiset().add(
                    nodes_tests(children_view(nm0)).to_multiset(),
                ).add(h.to_multiset()));
            }
        }
        CollectedCategoryOrTest::Category(c) => {
            let ghost c_g = c;
            proof {
                assert(decreases_to!(orig[0] => c));
                assert(node_view(orig[0]) == cat_view(c));
            }
            let (mc, nc) = partition_cat(c, predicate);
            let ghost mc_g = mc;
            let ghost nc_g = nc;
            let ghost mct = node_tests(cat_view(mc));
            let ghost nct = node_tests(cat_view(nc));
            proof {
                lemma_count_is_tests_len(cat_view(mc));
                lemma_count_is_tests_len(cat_view(nc));
                lemma_to_multiset_empty::<T>();
            }
            let m_pushed = !mc.is_empty();
            if m_pushed {
                push_node(m, CollectedCategoryOrTest::Category(mc));
                proof {
                    m_head = seq![CollectedCategoryOrTest::Category(mc_g)];
                    lemma_pred_extend_seq(
                        nodes_tests(children_view(m0)),
                        mct,
                        nodes_tests(children_view(m@)),
                        predicate,
                        true,
                    );
                }
            } else {
                proof {
                    assert(mct.len() == 0);
                    assert(mct =~= Seq::<CollectedTest<T>>::empty());
                    assert(nodes_tests(children_view(m@)).to_multiset() =~= nodes_tests(
                        children_view(m0),
                    ).to_multiset().add(mct.to_multiset()));
                }
            }
            if !nc.is_empty() {
                push_node(nm, CollectedCategoryOrTest::Category(nc));
                proof {
                    nm_head = seq![CollectedCategoryOrTest::Category(nc_g)];
                    lemma_pred_extend_seq(
                        nodes_tests(children_view(nm0)),
                        nct,
                        nodes_tests(children_view(nm@)),
                        predicate,
                        false,
                    );
                }
            } else {
                proof {
                    assert(nct.len() == 0);
                    assert(nct =~= Seq::<CollectedTest<T>>::empty());
                    assert(nodes_tests(children_view(nm@)).to_multiset() =~= nodes_tests(
                        children_view(nm0),
                    ).to_multiset().add(nct.to_multiset()));
                }
            }
            proof {
                lemma_children_view_singleton(CollectedCategoryOrTest::Category(mc_g));
                lemma_children_view_singleton(CollectedCategoryOrTest::Category(nc_g));
                assert(cat_view(mc_g) == (TreeNode::Category {
                    name: mc_g.name@,
                    path: mc_g.path@,
                    children: children_view(mc_g.children@),
                }));
                assert(cat_view(nc_g) == (TreeNode::Category {
                    name: nc_g.name@,
                    path: nc_g.path@,
                    children: children_view(nc_g.children@),
                }));
                assert(cat_view(c_g) == (TreeNode::Category {
                    name: c_g.name@,
                    path: c_g.path@,
                    children: children_view(c_g.children@),
                }));
                assert(node_count(cat_view(mc_g)) == nodes_count(children_view(mc_g.children@)));
                assert(node_count(cat_view(nc_g)) == nodes_count(children_view(nc_g.children@)));
                if nodes_count(children_view(mc_g.children@)) == 0 {
                    lemma_no_empty_zero_count(children_view(mc_g.children@));
                    assert(children_view(mc_g.children@) == Seq::<TreeNode<T>>::empty());
                }
                if nodes_count(children_view(nc_g.children@)) == 0 {
                    lemma_no_empty_zero_count(children_view(nc_g.children@));
                    assert(children_view(nc_g.children@) == Seq::<TreeNode<T>>::empty());
                }
                assert(cs[0] == cat_view(c_g));
                assert(spec_partitioned(
                    children_view(c_g.children@),
                    children_view(mc_g.children@),
                    children_view(nc_g.children@),
                    predicate,
                ));
                assert(partition_step_ok(cs[0], m_head, nm_head, predicate));
            }
            proof {
                assert(nodes_tests(children_view(m@)).to_multiset().add(
                    nodes_tests(children_view(nm@)).to_multiset(),
                ) =~= nodes_tests(children_view(m0)).to_multiset().add(
                    nodes_tests(children_view(nm0)).to_multiset(),
                ).add(h.to_multiset()));
            }
        }
    }
    let ghost m1 = m@;
    let ghost nm1 = nm@;
    proof {
        assert(m1 =~= m0 + m_head);
        assert(nm1 =~= nm0 + nm_head);
        assert(nodes_count(children_view(m1)) + nodes_count(children_view(nm1)) == nodes_count(
            children_view(m0),
        ) + nodes_count(children_view(nm0)) + node_count(node_view(orig[0])));
    }
    partition_nodes(nodes, predicate, m, nm);
    proof {
        let a2m = m@.skip(m1.len() as int);
        let a2nm = nm@.skip(nm1.len() as int);
        assert(m@ =~= m0 + (m_head + a2m));
        assert(m@.skip(m0.len() as int) =~= m_head + a2m);
        assert(nm@ =~= nm0 + (nm_head + a2nm));
        assert(nm@.skip(nm0.len() as int) =~= nm_head + a2nm);
        assert(cs.drop_first() =~= children_view(orig.drop_first()));
        assert(spec_partitioned(cs.drop_first(), children_view(a2m), children_view(a2nm), predicate));
        lemma_partition_step(cs, m_head, nm_head, a2m, a2nm, predicate);
        assert(spec_partitioned(
            cs,
            children_view(m@.skip(m0.len() as int)),
            children_view(nm@.skip(nm0.len() as int)),
            predicate,
        ));
    }
    proof {
        assert(nodes_tests(children_view(final(m)@)).to_multiset().add(
            nodes_tests(children_view(final(nm)@)).to_multiset(),
        ) =~= nodes_tests(children_view(m0)).to_multiset().add(
            nodes_tests(children_view(nm0)).to_multiset(),
        ).add(h.to_multiset()).add(nodes_tests(children_view(orig.drop_first())).to_multiset()));
        assert(nodes_tests(children_view(m0)).to_multiset().add(
            nodes_tests(children_view(nm0)).to_multiset(),
        ).add(h.to_multiset()).add(nodes_tests(children_view(orig.drop_first())).to_multiset())
            =~= nodes_tests(children_view(m0)).to_multiset().add(
            nodes_tests(children_view(nm0)).to_multiset(),
        ).add((h + nodes_tests(children_view(orig.drop_first()))).to_multiset()));
    }
}

proof fn lemma_to_multiset_empty<T>()
    ensures
        Seq::<CollectedTest<T>>::empty().to_multiset() == Multiset::<CollectedTest<T>>::empty(),
{
    broadcast use vstd::seq_lib::group_to_multiset_ensures;

    assert(Seq::<CollectedTest<T>>::empty().to_multiset() =~= Multiset::<
        CollectedTest<T>,
    >::empty());
}

/// Extending a side with a single test keeps every test on it a possible
/// `expected` answer of the predicate, provided the new test is one.
proof fn lemma_pred_extend<T, F: Fn(&CollectedTest<T>) -> bool>(
    before: Seq<CollectedTest<T>>,
    t: CollectedTest<T>,
    after: Seq<CollectedTest<T>>,
    pred: F,
    expected: bool,
)
    requires
        after == before + seq![t],
        call_ensures(pred, (&t,), expected),
    ensures
        tests_match_pred(before, pred, expected) ==> tests_match_pred(after, pred, expected),
{
    if tests_match_pred(before, pred, expected) {
        assert forall|i: int| 0 <= i < after.len() implies call_ensures(
            pred,
            (&after[i],),
            expected,
        ) by {
            if i < before.len() {
                assert(after[i] == before[i]);
            } else {
                assert(after[i] == t);
            }
        }
    }
}

proof fn lemma_pred_extend_seq<T, F: Fn(&CollectedTest<T>) -> bool>(
    before: Seq<CollectedTest<T>>,
    ts: Seq<CollectedTest<T>>,
    after: Seq<CollectedTest<T>>,
    pred: F,
    expected: bool,
)
    requires
        after == before + ts,
        tests_match_pred(ts, pred, expected),
    ensures
        tests_match_pred(before, pred, expected) ==> tests_match_pred(after, pred, expected),
{
    if tests_match_pred(before, pred, expected) {
        assert forall|i: int| 0 <= i < after.len() implies call_ensures(
            pred,
            (&after[i],),
            expected,
        ) by {
            if i < before.len() {
                assert(after[i] == before[i]);
            } else {
                assert(after[i] == ts[i - before.len()]);
            }
        }
    }
}

/// Appends one node to a side, keeping track of what that does to the
/// side's view, tests, count and well-formedness.
fn push_node<T>(side: &mut Vec<CollectedCategoryOrTest<T>>, node: CollectedCategoryOrTest<T>)
    ensures
        final(side)@ == old(side)@ + seq![node],
        children_view(final(side)@) == children_view(old(side)@) + seq![node_view(node)],
        nodes_tests(children_view(final(side)@)) == nodes_tests(children_view(old(side)@))
            + node_tests(node_view(node)),
        nodes_count(children_view(final(side)@)) == nodes_count(children_view(old(side)@))
            + node_count(node_view(node)),
        nodes_tests(children_view(final(side)@)).to_multiset() == nodes_tests(
            children_view(old(side)@),
        ).to_multiset().add(node_tests(node_view(node)).to_multiset()),
        nodes_no_empty_cats(children_view(old(side)@)) && node_no_empty_cats(node_view(node))
            ==> nodes_no_empty_cats(children_view(final(side)@)),
{
    let ghost before = side@;
    side.push(node);
    proof {
        assert(side@ =~= before + seq![node]);
        lemma_children_view_append(before, seq![node]);
        lemma_children_view_singleton(node);
        lemma_nodes_tests_append(children_view(before), seq![node_view(node)]);
        lemma_nodes_count_append(children_view(before), seq![node_view(node)]);
        lemma_nodes_no_empty_cats_append(children_view(before), seq![node_view(node)]);
        lemma_nodes_tests_singleton(node_view(node));
        lemma_nodes_count_singleton(node_view(node));
        lemma_nodes_no_empty_cats_singleton(node_view(node));
        vstd::seq_lib::lemma_multiset_commutative(
            nodes_tests(children_view(before)),
            node_tests(node_view(node)),
        );
    }
}

fn partition_cat<T, F: Fn(&CollectedTest<T>) -> bool + Copy>(
    cat: CollectedTestCategory<T>,
    predicate: F,
) -> (r: (CollectedTestCategory<T>, CollectedTestCategory<T>))
    requires
        forall|t: &CollectedTest<T>| #[trigger] call_requires(predicate, (t,)),
    ensures
        r.0.name@ == cat.name@,
        r.0.path@ == cat.path@,
        r.1.name@ == cat.name@,
        r.1.path@ == cat.path@,
        node_count(r.0@) + node_count(r.1@) == node_count(cat@),
        node_tests(r.0@).to_multiset().add(node_tests(r.1@).to_multiset()) == node_tests(
            cat@,
        ).to_multiset(),
        tests_match_pred(node_tests(r.0@), predicate, true),
        tests_match_pred(node_tests(r.1@), predicate, false),
        nodes_no_empty_cats(children_view(r.0.children@)),
        nodes_no_empty_cats(children_view(r.1.children@)),
        spec_partitioned(
            children_view(cat.children@),
            children_view(r.0.children@),
            children_view(r.1.children@),
            predicate,
        ),
    decreases cat, 0nat,
{
    let CollectedTestCategory { name, path, children } = cat;
    proof {
        assert(decreases_to!(cat => children));
        assert(decreases_to!(children => children@));
    }
    let mut matching_children: Vec<CollectedCategoryOrTest<T>> = Vec::new();
    let mut non_matching_children: Vec<CollectedCategoryOrTest<T>> = Vec::new();
    proof {
        assert(children_view(matching_children@).len() == 0);
        assert(nodes_tests(children_view(matching_children@)) =~= Seq::<
            CollectedTest<T>,
        >::empty());
        lemma_to_multiset_empty::<T>();
    }
    partition_nodes(children, predicate, &mut matching_children, &mut non_matching_children);
    proof {
        assert(matching_children@.skip(0) =~= matching_children@);
        assert(non_matching_children@.skip(0) =~= non_matching_children@);
    }
    let matching = CollectedTestCategory {
        name: name.clone(),
        path: path.clone(),
        children: matching_children,
    };
    let non_matching = CollectedTestCategory { name, path, children: non_matching_children };
    proof {
        assert(Multiset::<CollectedTest<T>>::empty().add(
            Multiset::<CollectedTest<T>>::empty(),
        ).add(nodes_tests(children_view(children@)).to_multiset()) =~= nodes_tests(
            children_view(children@),
        ).to_multiset());
    }
    (matching, non_matching)
}

impl<T> CollectedTestCategory<T> {
    /// Splits this category into two separate categories based on a predicate.
    /// The first category contains tests matching the predicate, the second contains those that don't.
    /// Both categories preserve the same name and path as the original.
    ///
    /// Each test of the original ends up on exactly one side, the two
    /// counts add up to the original count, and no retained category on
    /// either side is left without a test. Beyond that, each side is
    /// arranged as the original was: tests keep their relative order on
    /// the side they were sent to, and every surviving category keeps its
    /// name, its path, its place among its siblings and, recursively, the
    /// arrangement of its own children.
    pub fn partition<F: Fn(&CollectedTest<T>) -> bool + Copy>(self, predicate: F) -> (r: (
        Self,
        Self,
    ))
        requires
            forall|t: &CollectedTest<T>| #[trigger] call_requires(predicate, (t,)),
        ensures
            r.0.name@ == self.name@,
            r.0.path@ == self.path@,
            r.1.name@ == self.name@,
            r.1.path@ == self.path@,
            node_count(r.0@) + node_count(r.1@) == node_count(self@),
            node_tests(r.0@).to_multiset().add(node_tests(r.1@).to_multiset()) == node_tests(
                self@,
            ).to_multiset(),
            tests_match_pred(node_tests(r.0@), predicate, true),
            tests_match_pred(node_tests(r.1@), predicate, false),
            nodes_no_empty_cats(children_view(r.0.children@)),
            nodes_no_empty_cats(children_view(r.1.children@)),
            spec_partitioned(
                children_view(self.children@),
                children_view(r.0.children@),
                children_view(r.1.children@),
                predicate,
            ),
    {
        partition_cat(self, predicate)
    }
}

} // verus!
