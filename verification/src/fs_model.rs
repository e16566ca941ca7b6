use vstd::prelude::*;

verus! {

use crate::strings::lex_lt;
use vstd::multiset::Multiset;
use crate::strings::lowered_eq;
use crate::strings::str_lex_lt;
use crate::strings::str_lowered_eq;

/// A snapshot of one directory entry, as a directory listing shows it,
/// with nested directories carried in full. The collection strategies walk
/// such snapshots; reading them from disk is the caller's concern.
#[derive(Debug)]
pub enum FsEntry {
    /// Anything that is not a directory, by name.
    File { name: String },
    /// A directory, by name, with the entries listed inside it.
    Dir { name: String, entries: Vec<FsEntry> },
}

/// Mathematical shape of a directory entry.
#[verifier::ext_equal]
pub enum FsNode {
    File { name: Seq<char> },
    Dir { name: Seq<char>, entries: Seq<FsNode> },
}

pub open spec fn entry_view(e: FsEntry) -> FsNode
    decreases e, 0nat,
{
    match e {
        FsEntry::File { name } => FsNode::File { name: name@ },
        FsEntry::Dir { name, entries } => FsNode::Dir {
            name: name@,
            entries: entries_view(entries@),
        },
    }
}

pub open spec fn entries_view(es: Seq<FsEntry>) -> Seq<FsNode>
    decreases es, 1nat,
{
    if es.len() == 0 {
        Seq::empty()
    } else {
        seq![entry_view(es[0])] + entries_view(es.drop_first())
    }
}

impl View for FsEntry {
    type V = FsNode;

    open spec fn view(&self) -> FsNode {
        entry_view(*self)
    }
}

pub broadcast proof fn lemma_entries_view_len(es: Seq<FsEntry>)
    ensures
        (#[trigger] entries_view(es)).len() == es.len(),
    decreases es.len(),
{
    if es.len() > 0 {
        lemma_entries_view_len(es.drop_first());
    }
}

pub broadcast proof fn lemma_entries_view_index(es: Seq<FsEntry>, i: int)
    requires
        0 <= i < es.len(),
    ensures
        #[trigger] entries_view(es)[i] == entry_view(es[i]),
    decreases es.len(),
{
    lemma_entries_view_len(es);
    if i > 0 {
        lemma_entries_view_index(es.drop_first(), i - 1);
    }
}

/// The name of an entry, file or directory.
pub open spec fn fs_name(n: FsNode) -> Seq<char> {
    match n {
        FsNode::File { name } => name,
        FsNode::Dir { name, .. } => name,
    }
}

/// Total number of entries in a subtree; at least one per node.
pub open spec fn fs_size(n: FsNode) -> nat
    decreases n, 0nat,
{
    match n {
        FsNode::File { .. } => 1,
        FsNode::Dir { entries, .. } => 1 + fs_seq_size(entries),
    }
}

pub open spec fn fs_seq_size(ns: Seq<FsNode>) -> nat
    decreases ns, 1nat,
{
    if ns.len() == 0 {
        0
    } else {
        fs_size(ns[0]) + fs_seq_size(ns.drop_first())
    }
}

pub broadcast proof fn lemma_fs_seq_size_append(a: Seq<FsNode>, b: Seq<FsNode>)
    ensures
        #[trigger] fs_seq_size(a + b) == fs_seq_size(a) + fs_seq_size(b),
    decreases a.len(),
{
    if a.len() == 0 {
        assert(a + b =~= b);
    } else {
        assert((a + b).drop_first() =~= a.drop_first() + b);
        lemma_fs_seq_size_append(a.drop_first(), b);
    }
}

pub broadcast proof fn lemma_fs_seq_size_singleton(n: FsNode)
    ensures
        #[trigger] fs_seq_size(seq![n]) == fs_size(n),
{
    assert(seq![n].drop_first() =~= Seq::<FsNode>::empty());
    assert(fs_seq_size(Seq::<FsNode>::empty()) == 0);
    assert(seq![n][0] == n);
}

/// Entries kept for traversal: hidden entries and readme files are
/// skipped.
pub open spec fn spec_keep(n: FsNode) -> bool {
    &&& !(fs_name(n).len() > 0 && fs_name(n)[0] == '.')
    &&& !lowered_eq(fs_name(n), "readme.md"@)
}

/// The keep test as a function value, shared by the definitions below.
pub open spec fn keep_pred() -> spec_fn(FsNode) -> bool {
    |n: FsNode| spec_keep(n)
}

/// Insertion of an entry into a sorted run: after every entry whose name
/// is strictly smaller, before the rest, so that entries of equal name
/// keep their relative order.
pub open spec fn spec_insert(x: FsNode, s: Seq<FsNode>) -> Seq<FsNode>
    decreases s.len(),
{
    if s.len() == 0 {
        seq![x]
    } else if lex_lt(fs_name(s[0]), fs_name(x)) {
        seq![s[0]] + spec_insert(x, s.drop_first())
    } else {
        seq![x] + s
    }
}

/// Stable sort of entries by name, in lexicographic code-point order.
pub open spec fn spec_sort(s: Seq<FsNode>) -> Seq<FsNode>
    decreases s.len(),
{
    if s.len() == 0 {
        s
    } else {
        spec_insert(s[0], spec_sort(s.drop_first()))
    }
}

/// What a raw directory listing becomes before traversal: hidden and
/// readme entries dropped, the rest sorted by name.
pub open spec fn spec_prepare(s: Seq<FsNode>) -> Seq<FsNode> {
    spec_sort(s.filter(keep_pred()))
}

pub proof fn lemma_insert_size(x: FsNode, s: Seq<FsNode>)
    ensures
        fs_seq_size(spec_insert(x, s)) == fs_size(x) + fs_seq_size(s),
    decreases s.len(),
{
    if s.len() == 0 {
        lemma_fs_seq_size_singleton(x);
    } else if lex_lt(fs_name(s[0]), fs_name(x)) {
        lemma_insert_size(x, s.drop_first());
        lemma_fs_seq_size_append(seq![s[0]], spec_insert(x, s.drop_first()));
        lemma_fs_seq_size_singleton(s[0]);
    } else {
        lemma_fs_seq_size_append(seq![x], s);
        lemma_fs_seq_size_singleton(x);
    }
}

pub proof fn lemma_sort_size(s: Seq<FsNode>)
    ensures
        fs_seq_size(spec_sort(s)) == fs_seq_size(s),
    decreases s.len(),
{
    if s.len() > 0 {
        lemma_sort_size(s.drop_first());
        lemma_insert_size(s[0], spec_sort(s.drop_first()));
    }
}

pub proof fn lemma_fs_seq_size_elem(s: Seq<FsNode>, i: int)
    requires
        0 <= i < s.len(),
    ensures
        fs_size(s[i]) <= fs_seq_size(s),
    decreases i,
{
    if i == 0 {
    } else {
        lemma_fs_seq_size_elem(s.drop_first(), i - 1);
    }
}

pub proof fn lemma_fs_seq_size_drop_last(s: Seq<FsNode>)
    requires
        s.len() > 0,
    ensures
        fs_seq_size(s) == fs_seq_size(s.drop_last()) + fs_size(s.last()),
{
    assert(s =~= s.drop_last() + seq![s.last()]);
    lemma_fs_seq_size_append(s.drop_last(), seq![s.last()]);
    lemma_fs_seq_size_singleton(s.last());
}

pub proof fn lemma_filter_size(s: Seq<FsNode>)
    ensures
        fs_seq_size(s.filter(keep_pred())) <= fs_seq_size(s),
    decreases s.len(),
{
    reveal(Seq::filter);
    if s.len() == 0 {
        assert(s.filter(keep_pred()) =~= s);
    } else {
        lemma_filter_size(s.drop_last());
        lemma_fs_seq_size_drop_last(s);
        if keep_pred()(s.last()) {
            assert(s.filter(keep_pred()) == s.drop_last().filter(keep_pred()).push(s.last()));
            lemma_fs_seq_size_drop_last(s.filter(keep_pred()));
            assert(s.filter(keep_pred()).drop_last() =~= s.drop_last().filter(keep_pred()));
        } else {
            assert(s.filter(keep_pred()) == s.drop_last().filter(keep_pred()));
        }
    }
}

/// Preparing a listing never grows it.
pub proof fn lemma_prepare_size(s: Seq<FsNode>)
    ensures
        fs_seq_size(spec_prepare(s)) <= fs_seq_size(s),
{
    lemma_sort_size(s.filter(keep_pred()));
    lemma_filter_size(s);
}

pub fn entry_name(e: &FsEntry) -> (r: &String)
    ensures
        r@ == fs_name(e@),
{
    match e {
        FsEntry::File { name } => name,
        FsEntry::Dir { name, .. } => name,
    }
}

fn keep_entry(e: &FsEntry) -> (r: bool)
    ensures
        r == spec_keep(e@),
{
    let name = entry_name(e);
    let name_len: usize = name.as_str().unicode_len();
    if name_len > 0 && name.as_str().get_char(0) == '.' {
        return false;
    }
    if str_lowered_eq(name.as_str(), "readme.md") {
        return false;
    }
    true
}

fn insert_entry(x: FsEntry, v: Vec<FsEntry>) -> (r: Vec<FsEntry>)
    ensures
        entries_view(r@) == spec_insert(entry_view(x), entries_view(v@)),
    decreases v@.len(),
{
    let mut v = v;
    let ghost orig = v@;
    proof {
        lemma_entries_view_len(orig);
    }
    if v.len() == 0 {
        let mut out: Vec<FsEntry> = Vec::new();
        out.push(x);
        proof {
            assert(out@ =~= seq![x]);
            lemma_entries_view_singleton(x);
        }
        return out;
    }
    let x_name_smaller_or_equal = {
        let head_name = entry_name(&v[0]);
        proof {
            lemma_entries_view_index(orig, 0);
        }
        str_lex_lt(head_name.as_str(), entry_name(&x).as_str())
    };
    if x_name_smaller_or_equal {
        let head = v.remove(0);
        proof {
            assert(head == orig[0]);
            assert(v@ =~= orig.drop_first());
        }
        let rest = insert_entry(x, v);
        let mut out = rest;
        out.insert(0, head);
        proof {
            assert(out@[0] == head);
            assert(out@.drop_first() =~= rest@);
            assert(entries_view(out@) =~= seq![entry_view(head)] + entries_view(rest@));
            assert(entries_view(orig).drop_first() =~= entries_view(orig.drop_first())) by {
                lemma_entries_view_drop_first(orig);
            }
            assert(entries_view(orig)[0] == entry_view(orig[0]));
            assert(entries_view(out@) =~= spec_insert(entry_view(x), entries_view(orig)));
        }
        out
    } else {
        let mut out = v;
        out.insert(0, x);
        proof {
            assert(out@[0] == x);
            assert(out@.drop_first() =~= orig);
            assert(entries_view(out@) =~= seq![entry_view(x)] + entries_view(orig));
            assert(entries_view(orig)[0] == entry_view(orig[0]));
            assert(entries_view(out@) =~= spec_insert(entry_view(x), entries_view(orig)));
        }
        out
    }
}

pub broadcast proof fn lemma_entries_view_singleton(e: FsEntry)
    ensures
        #[trigger] entries_view(seq![e]) == seq![entry_view(e)],
{
    assert(seq![e].drop_first() =~= Seq::<FsEntry>::empty());
    assert(entries_view(Seq::<FsEntry>::empty()) =~= Seq::<FsNode>::empty());
    assert(seq![e][0] == e);
    assert(entries_view(seq![e]) =~= seq![entry_view(e)]);
}

pub broadcast proof fn lemma_entries_view_drop_first(es: Seq<FsEntry>)
    requires
        es.len() > 0,
    ensures
        (#[trigger] entries_view(es)).drop_first() == entries_view(es.drop_first()),
{
    lemma_entries_view_len(es);
    lemma_entries_view_len(es.drop_first());
    assert(entries_view(es).drop_first() =~= entries_view(es.drop_first()));
}

fn sort_entries(v: Vec<FsEntry>) -> (r: Vec<FsEntry>)
    ensures
        entries_view(r@) == spec_sort(entries_view(v@)),
    decreases v@.len(),
{
    let mut v = v;
    let ghost orig = v@;
    proof {
        lemma_entries_view_len(orig);
    }
    if v.len() == 0 {
        return v;
    }
    let head = v.remove(0);
    proof {
        assert(head == orig[0]);
        assert(v@ =~= orig.drop_first());
        lemma_entries_view_drop_first(orig);
        lemma_entries_view_index(orig, 0);
    }
    let sorted_rest = sort_entries(v);
    insert_entry(head, sorted_rest)
}

/// Turns one raw directory listing into traversal order: hidden entries
/// and readme files dropped, the rest stably sorted by name.
pub fn prepare_dir_entries(v: Vec<FsEntry>) -> (r: Vec<FsEntry>)
    ensures
        entries_view(r@) == spec_prepare(entries_view(v@)),
{
    let mut v = v;
    let ghost orig = v@;
    proof {
        lemma_entries_view_len(orig);
    }
    let mut kept: Vec<FsEntry> = Vec::new();
    let mut i: usize = 0;
    proof {
        reveal(Seq::filter);
        assert(orig.take(0) =~= Seq::<FsEntry>::empty());
        assert(entries_view(Seq::<FsEntry>::empty()).filter(keep_pred()) =~= Seq::<
            FsNode,
        >::empty());
        assert(entries_view(kept@) =~= Seq::<FsNode>::empty());
    }
    while i < v.len()
        invariant
            v@ == orig,
            0 <= i <= orig.len(),
            entries_view(kept@) == entries_view(orig.take(i as int)).filter(keep_pred()),
        decreases orig.len() - i,
    {
        let keep = keep_entry(&v[i]);
        let ghost kept_before = kept@;
        let ghost prefix = entries_view(orig.take(i as int));
        proof {
            reveal(Seq::filter);
            lemma_entries_view_len(orig.take(i + 1));
            assert(orig.take(i + 1).drop_last() =~= orig.take(i as int));
            assert(orig.take(i + 1).last() == orig[i as int]);
            lemma_entries_view_push(orig.take(i as int), orig[i as int]);
            assert(orig.take(i + 1) =~= orig.take(i as int).push(orig[i as int]));
            // the filtered prefix grows by the element exactly when it is kept
                }
        if keep {
            let e = clone_entry(&v[i]);
            kept.push(e);
            proof {
                reveal(Seq::filter);
                assert(kept@ =~= kept_before + seq![e]);
                lemma_entries_view_append(kept_before, seq![e]);
                lemma_entries_view_singleton(e);
                assert(entries_view(kept@) =~= prefix.filter(keep_pred()).push(entry_view(e)));
                assert(entries_view(orig.take(i + 1)) == prefix.push(entry_view(orig[i as int])));
                assert(prefix.push(entry_view(orig[i as int])).drop_last() =~= prefix);
                assert(prefix.push(entry_view(orig[i as int])).last() == entry_view(
                    orig[i as int],
                ));
                assert(keep_pred()(entry_view(orig[i as int])) == spec_keep(
                    entry_view(orig[i as int]),
                ));
                assert(entries_view(orig.take(i + 1)).filter(keep_pred()) == prefix.filter(
                    keep_pred(),
                ).push(entry_view(orig[i as int])));
            }
        } else {
            proof {
                reveal(Seq::filter);
                assert(entries_view(orig.take(i + 1)) == prefix.push(entry_view(orig[i as int])));
                assert(prefix.push(entry_view(orig[i as int])).drop_last() =~= prefix);
                assert(prefix.push(entry_view(orig[i as int])).last() == entry_view(
                    orig[i as int],
                ));
                assert(keep_pred()(entry_view(orig[i as int])) == spec_keep(
                    entry_view(orig[i as int]),
                ));
                assert(entries_view(orig.take(i + 1)).filter(keep_pred()) == prefix.filter(
                    keep_pred(),
                ));
            }
        }
        i = i + 1;
    }
    proof {
        assert(orig.take(orig.len() as int) =~= orig);
    }
    sort_entries(kept)
}

pub broadcast proof fn lemma_entries_view_append(a: Seq<FsEntry>, b: Seq<FsEntry>)
    ensures
        #[trigger] entries_view(a + b) == entries_view(a) + entries_view(b),
    decreases a.len(),
{
    if a.len() == 0 {
        assert(a + b =~= b);
        assert(entries_view(a) + entries_view(b) =~= entries_view(b));
    } else {
        assert((a + b).drop_first() =~= a.drop_first() + b);
        lemma_entries_view_append(a.drop_first(), b);
        assert(entries_view(a + b) =~= entries_view(a) + entries_view(b));
    }
}

pub proof fn lemma_entries_view_push(es: Seq<FsEntry>, e: FsEntry)
    ensures
        entries_view(es.push(e)) == entries_view(es).push(entry_view(e)),
{
    assert(es.push(e) =~= es + seq![e]);
    lemma_entries_view_append(es, seq![e]);
    lemma_entries_view_singleton(e);
    assert(entries_view(es) + seq![entry_view(e)] =~= entries_view(es).push(entry_view(e)));
}

fn clone_entry(e: &FsEntry) -> (r: FsEntry)
    ensures
        r@ == e@,
    decreases fs_size(entry_view(*e)),
{
    match e {
        FsEntry::File { name } => FsEntry::File { name: name.clone() },
        FsEntry::Dir { name, entries } => {
            let ghost orig = entries@;
            proof {
                lemma_entries_view_len(orig);
            }
            let mut cloned: Vec<FsEntry> = Vec::new();
            let mut i: usize = 0;
            proof {
                assert(entries_view(cloned@) =~= entries_view(orig.take(0)));
                assert(orig.take(0) =~= Seq::<FsEntry>::empty());
            }
            while i < entries.len()
                invariant
                    *e == (FsEntry::Dir { name: *name, entries: *entries }),
                    orig == entries@,
                    0 <= i <= orig.len(),
                    entries_view(cloned@) == entries_view(orig.take(i as int)),
                decreases orig.len() - i,
            {
                let child = &entries[i];
                proof {
                    lemma_entries_view_index(orig, i as int);
                    assert(*child == orig[i as int]);
                    lemma_entries_view_len(orig);
                    lemma_fs_seq_size_elem(entries_view(orig), i as int);
                    assert(fs_size(entry_view(*child)) < fs_size(entry_view(*e)));
                }
                let child_clone = clone_entry(child);
                let ghost before = cloned@;
                cloned.push(child_clone);
                proof {
                    assert(cloned@ =~= before + seq![child_clone]);
                    lemma_entries_view_append(before, seq![child_clone]);
                    lemma_entries_view_singleton(child_clone);
                    assert(orig.take(i + 1) =~= orig.take(i as int) + seq![orig[i as int]]);
                    lemma_entries_view_append(orig.take(i as int), seq![orig[i as int]]);
                    lemma_entries_view_singleton(orig[i as int]);
                }
                i = i + 1;
            }
            proof {
                assert(orig.take(orig.len() as int) =~= orig);
            }
            FsEntry::Dir { name: name.clone(), entries: cloned }
        }
    }
}

/// Adjacent entries are in order: no entry's name strictly precedes its
/// predecessor's.
pub open spec fn entries_sorted(s: Seq<FsNode>) -> bool {
    forall|i: int|
        0 <= i < s.len() - 1 ==> !lex_lt(fs_name(#[trigger] s[i + 1]), fs_name(s[i]))
}

pub proof fn lemma_insert_sorted(x: FsNode, s: Seq<FsNode>)
    requires
        entries_sorted(s),
    ensures
        entries_sorted(spec_insert(x, s)),
        spec_insert(x, s).len() == s.len() + 1,
        spec_insert(x, s)[0] == x || spec_insert(x, s)[0] == s[0],
    decreases s.len(),
{
    if s.len() == 0 {
    } else if lex_lt(fs_name(s[0]), fs_name(x)) {
        assert(entries_sorted(s.drop_first())) by {
            assert forall|i: int| 0 <= i < s.drop_first().len() - 1 implies !lex_lt(
                fs_name(#[trigger] s.drop_first()[i + 1]),
                fs_name(s.drop_first()[i]),
            ) by {
                assert(s.drop_first()[i + 1] == s[i + 2]);
                assert(s.drop_first()[i] == s[i + 1]);
                assert(!lex_lt(fs_name(s[i + 2]), fs_name(s[i + 1])));
            }
        }
        lemma_insert_sorted(x, s.drop_first());
        let rest = spec_insert(x, s.drop_first());
        let out = seq![s[0]] + rest;
        assert(out[0] == s[0]);
        assert forall|i: int| 0 <= i < out.len() - 1 implies !lex_lt(
            fs_name(#[trigger] out[i + 1]),
            fs_name(out[i]),
        ) by {
            if i == 0 {
                assert(out[1] == rest[0]);
                if s.drop_first().len() == 0 {
                    assert(rest[0] == x);
                    crate::strings::lemma_lex_lt_asym(fs_name(s[0]), fs_name(x));
                } else {
                    assert(rest[0] == x || rest[0] == s.drop_first()[0]);
                    if rest[0] == x {
                        crate::strings::lemma_lex_lt_asym(fs_name(s[0]), fs_name(x));
                    } else {
                        assert(s.drop_first()[0] == s[1]);
                        assert(!lex_lt(fs_name(s[1]), fs_name(s[0])));
                    }
                }
            } else {
                assert(out[i] == rest[i - 1]);
                assert(out[i + 1] == rest[i]);
                assert(!lex_lt(fs_name(rest[(i - 1) + 1]), fs_name(rest[i - 1])));
                assert(rest[i] == rest[(i - 1) + 1]);
            }
        }
    } else {
        let out = seq![x] + s;
        assert forall|i: int| 0 <= i < out.len() - 1 implies !lex_lt(
            fs_name(#[trigger] out[i + 1]),
            fs_name(out[i]),
        ) by {
            if i == 0 {
                assert(out[0] == x);
                assert(out[1] == s[0]);
            } else {
                assert(out[i] == s[i - 1]);
                assert(out[i + 1] == s[i]);
                assert(!lex_lt(fs_name(s[(i - 1) + 1]), fs_name(s[i - 1])));
                assert(s[i] == s[(i - 1) + 1]);
            }
        }
    }
}

/// The stable sort really sorts: its result is in order, and it holds
/// exactly the entries it was given.
pub proof fn lemma_sort_sorted(s: Seq<FsNode>)
    ensures
        entries_sorted(spec_sort(s)),
        spec_sort(s).to_multiset() == s.to_multiset(),
    decreases s.len(),
{
    broadcast use vstd::seq_lib::group_to_multiset_ensures;

    if s.len() == 0 {
    } else {
        lemma_sort_sorted(s.drop_first());
        lemma_insert_sorted(s[0], spec_sort(s.drop_first()));
        lemma_insert_multiset(s[0], spec_sort(s.drop_first()));
        assert(s =~= seq![s[0]] + s.drop_first());
        vstd::seq_lib::lemma_multiset_commutative(seq![s[0]], s.drop_first());
        assert(seq![s[0]].to_multiset() =~= Multiset::<FsNode>::empty().insert(s[0])) by {
            assert(seq![s[0]].drop_first() =~= Seq::<FsNode>::empty());
        }
        assert(spec_sort(s).to_multiset() =~= s.to_multiset());
    }
}

proof fn lemma_insert_multiset(x: FsNode, s: Seq<FsNode>)
    ensures
        spec_insert(x, s).to_multiset() == s.to_multiset().insert(x),
    decreases s.len(),
{
    broadcast use vstd::seq_lib::group_to_multiset_ensures;

    if s.len() == 0 {
        assert(seq![x].drop_first() =~= Seq::<FsNode>::empty());
        assert(seq![x].to_multiset() =~= Seq::<FsNode>::empty().to_multiset().insert(x));
    } else if lex_lt(fs_name(s[0]), fs_name(x)) {
        lemma_insert_multiset(x, s.drop_first());
        vstd::seq_lib::lemma_multiset_commutative(seq![s[0]], spec_insert(x, s.drop_first()));
        vstd::seq_lib::lemma_multiset_commutative(seq![s[0]], s.drop_first());
        assert(seq![s[0]].to_multiset() =~= Multiset::<FsNode>::empty().insert(s[0])) by {
            assert(seq![s[0]].drop_first() =~= Seq::<FsNode>::empty());
        }
        assert(s =~= seq![s[0]] + s.drop_first());
        assert(spec_insert(x, s).to_multiset() =~= s.to_multiset().insert(x));
    } else {
        vstd::seq_lib::lemma_multiset_commutative(seq![x], s);
        assert(seq![x].to_multiset() =~= Multiset::<FsNode>::empty().insert(x)) by {
            assert(seq![x].drop_first() =~= Seq::<FsNode>::empty());
        }
        assert(spec_insert(x, s).to_multiset() =~= s.to_multiset().insert(x));
    }
}

/// What traversal order promises: the prepared listing is in
/// lexicographic name order and holds exactly the entries that were kept.
pub proof fn lemma_prepare_sorted(s: Seq<FsNode>)
    ensures
        entries_sorted(spec_prepare(s)),
        spec_prepare(s).to_multiset() == s.filter(keep_pred()).to_multiset(),
{
    lemma_sort_sorted(s.filter(keep_pred()));
}

} // verus!
