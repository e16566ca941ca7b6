use vstd::prelude::*;
use vstd::string::StrSliceExecFns;
use vstd::string::StringExecFns;

verus! {

use crate::errors::CollectTestsError;
use crate::errors::InvalidTestNameError;
use crate::fs_model::FsEntry;
use crate::fs_model::FsNode;
use crate::fs_model::entries_view;
use crate::fs_model::entry_name;
use crate::fs_model::lemma_entries_view_drop_first;
use crate::fs_model::fs_name;
use crate::fs_model::fs_seq_size;
use crate::fs_model::fs_size;
use crate::fs_model::lemma_entries_view_index;
use crate::fs_model::lemma_entries_view_len;
use crate::fs_model::lemma_fs_seq_size_elem;
use crate::fs_model::lemma_prepare_size;
use crate::fs_model::prepare_dir_entries;
use crate::fs_model::spec_prepare;
use crate::strings::str_eq;
use crate::strings::char_alphanumeric;
use crate::strings::is_alphanumeric_char;
use crate::tree::CollectedCategoryOrTest;
use crate::tree::CollectedTest;
use crate::tree::CollectedTestCategory;
use crate::tree::TreeNode;
use crate::tree::children_view;
use crate::tree::node_view;
use crate::tree::cat_view;
use crate::tree::nodes_count;
use crate::tree::lemma_children_view_len;
use crate::tree::lemma_children_view_index;
use crate::tree::node_count;
use crate::tree::spec_filter_children;
use crate::tree::spec_filter_head;
use crate::strings::contains_seq;

/// The description of a built tree node: what collection promises about
/// the names, paths and positions of what it returns.
#[verifier::ext_equal]
pub enum DescNode {
    Category { name: Seq<char>, path: Seq<char>, children: Seq<DescNode> },
    Test { name: Seq<char>, path: Seq<char>, line_and_column: Option<(u32, u32)> },
}

pub open spec fn desc_of_node<T>(n: TreeNode<T>) -> DescNode
    decreases n, 0nat,
{
    match n {
        TreeNode::Test(t) => DescNode::Test {
            name: t.name@,
            path: t.path@,
            line_and_column: t.line_and_column,
        },
        TreeNode::Category { name, path, children } => DescNode::Category {
            name,
            path,
            children: descs_of(children),
        },
    }
}

pub open spec fn descs_of<T>(ns: Seq<TreeNode<T>>) -> Seq<DescNode>
    decreases ns, 1nat,
{
    if ns.len() == 0 {
        Seq::empty()
    } else {
        seq![desc_of_node(ns[0])] + descs_of(ns.drop_first())
    }
}

pub broadcast proof fn lemma_descs_of_len<T>(ns: Seq<TreeNode<T>>)
    ensures
        (#[trigger] descs_of(ns)).len() == ns.len(),
    decreases ns.len(),
{
    if ns.len() > 0 {
        lemma_descs_of_len(ns.drop_first());
    }
}

pub broadcast proof fn lemma_descs_of_append<T>(a: Seq<TreeNode<T>>, b: Seq<TreeNode<T>>)
    ensures
        #[trigger] descs_of(a + b) == descs_of(a) + descs_of(b),
    decreases a.len(),
{
    if a.len() == 0 {
        assert(a + b =~= b);
        assert(descs_of(a) + descs_of(b) =~= descs_of(b));
    } else {
        assert((a + b).drop_first() =~= a.drop_first() + b);
        lemma_descs_of_append(a.drop_first(), b);
        assert(descs_of(a + b) =~= descs_of(a) + descs_of(b));
    }
}

pub broadcast proof fn lemma_descs_of_singleton<T>(n: TreeNode<T>)
    ensures
        #[trigger] descs_of(seq![n]) == seq![desc_of_node(n)],
{
    assert(seq![n].drop_first() =~= Seq::<TreeNode<T>>::empty());
    assert(descs_of(Seq::<TreeNode<T>>::empty()) =~= Seq::<DescNode>::empty());
    assert(seq![n][0] == n);
    assert(descs_of(seq![n]) =~= seq![desc_of_node(n)]);
}

/// Count of test leaves in a description.
pub open spec fn desc_count(d: DescNode) -> nat
    decreases d, 0nat,
{
    match d {
        DescNode::Test { .. } => 1,
        DescNode::Category { children, .. } => descs_count(children),
    }
}

pub open spec fn descs_count(ds: Seq<DescNode>) -> nat
    decreases ds, 1nat,
{
    if ds.len() == 0 {
        0
    } else {
        desc_count(ds[0]) + descs_count(ds.drop_first())
    }
}

/// The description keeps the count: counting test leaves through the
/// description equals counting them in the tree.
pub proof fn lemma_desc_count<T>(n: TreeNode<T>)
    ensures
        desc_count(desc_of_node(n)) == crate::tree::node_count(n),
    decreases n, 0nat,
{
    match n {
        TreeNode::Test(_) => {}
        TreeNode::Category { children, .. } => {
            lemma_descs_count(children);
        }
    }
}

pub proof fn lemma_descs_count<T>(ns: Seq<TreeNode<T>>)
    ensures
        descs_count(descs_of(ns)) == nodes_count(ns),
    decreases ns, 1nat,
{
    if ns.len() > 0 {
        lemma_desc_count(ns[0]);
        lemma_descs_count(ns.drop_first());
        assert(descs_of(ns)[0] == desc_of_node(ns[0]));
        assert(descs_of(ns).drop_first() =~= descs_of(ns.drop_first()));
    }
}

/// The fully qualified name a child gets: the parent name, the namespace
/// separator, the child's own part.
pub open spec fn spec_append_name(category_name: Seq<char>, new_part: Seq<char>) -> Seq<char> {
    category_name + "::"@ + new_part
}

/// Appends a part to a category name with the `::` separator.
pub fn append_to_category_name(category_name: &str, new_part: &str) -> (r: String)
    ensures
        r@ == spec_append_name(category_name@, new_part@),
{
    let mut out = String::from_str(category_name);
    out.append("::");
    out.append(new_part);
    out
}

/// The path a child entry gets: the directory path, a separator, the
/// entry name.
pub open spec fn spec_join_path(dir_path: Seq<char>, name: Seq<char>) -> Seq<char> {
    dir_path + "/"@ + name
}

fn join_path(dir_path: &str, name: &str) -> (r: String)
    ensures
        r@ == spec_join_path(dir_path@, name@),
{
    let mut out = String::from_str(dir_path);
    out.append("/");
    out.append(name);
    out
}

/// The index of the last `.` that sits after the first character and
/// before position `j`, or -1 when there is none.
pub open spec fn last_dot_from(name: Seq<char>, j: int) -> int
    decreases j,
{
    if j <= 1 {
        -1
    } else if name[j - 1] == '.' {
        j - 1
    } else {
        last_dot_from(name, j - 1)
    }
}

/// The file stem: everything before the last `.`, except that a lone
/// leading `.` does not count as a separator.
pub open spec fn spec_stem(name: Seq<char>) -> Seq<char> {
    let d = last_dot_from(name, name.len() as int);
    if d <= 0 {
        name
    } else {
        name.take(d)
    }
}

fn find_last_dot(name: &str, j: usize, name_len: usize) -> (r: Option<usize>)
    requires
        name_len == name@.len(),
        j <= name_len,
    ensures
        (match r {
            Some(i) => i as int == last_dot_from(name@, j as int) && 0 < i < name_len,
            None => last_dot_from(name@, j as int) == -1,
        }),
    decreases j,
{
    if j <= 1 {
        None
    } else if name.get_char(j - 1) == '.' {
        Some(j - 1)
    } else {
        find_last_dot(name, j - 1, name_len)
    }
}

/// The stem of a file name, as `Path::file_stem` computes it.
pub fn file_stem(name: &str) -> (r: String)
    ensures
        r@ == spec_stem(name@),
{
    let name_len: usize = name.unicode_len();
    match find_last_dot(name, name_len, name_len) {
        Some(d) => {
            let stem = name.substring_char(0, d);
            proof {
                assert(name@.subrange(0, d as int) =~= name@.take(d as int));
            }
            String::from_str(stem)
        }
        None => String::from_str(name),
    }
}

/// A character that survives command-line substring filtering.
pub open spec fn name_char_ok(c: char) -> bool {
    char_alphanumeric(c) || c == '_' || c == ':'
}

/// A test name safe for command-line filtering.
pub open spec fn valid_name(s: Seq<char>) -> bool {
    forall|i: int| 0 <= i < s.len() ==> name_char_ok(#[trigger] s[i])
}

fn name_is_valid(s: &str) -> (r: bool)
    ensures
        r == valid_name(s@),
{
    let len: usize = s.unicode_len();
    let mut i: usize = 0;
    while i < len
        invariant
            len == s@.len(),
            0 <= i <= len,
            forall|k: int| 0 <= k < i ==> name_char_ok(#[trigger] s@[k]),
        decreases len - i,
    {
        let c = s.get_char(i);
        if !(c == '_' || c == ':') {
            if !is_alphanumeric_char(c) {
                assert(!name_char_ok(s@[i as int]));
                return false;
            }
        }
        i = i + 1;
    }
    true
}

/// Whether a pattern compiles as a regular expression.
pub uninterp spec fn regex_pattern_ok(pattern: Seq<char>) -> bool;

/// Whether a regular expression matches somewhere in a text.
pub uninterp spec fn regex_is_match(pattern: Seq<char>, text: Seq<char>) -> bool;

/// Relies on regex::Regex::new: whether a pattern compiles depends on the
/// pattern alone.
#[verifier::external_body]
fn regex_pattern_is_valid(pattern: &str) -> (r: bool)
    ensures
        r == regex_pattern_ok(pattern@),
{
    regex::Regex::new(pattern).is_ok()
}

/// Relies on regex::Regex::new and regex::Regex::is_match: whether a
/// compiling pattern matches somewhere in the text depends on the pattern
/// and the text alone.
#[verifier::external_body]
fn regex_text_matches(pattern: &str, text: &str) -> (r: bool)
    requires
        regex_pattern_ok(pattern@),
    ensures
        r == regex_is_match(pattern@, text@),
{
    regex::Regex::new(pattern).unwrap().is_match(text)
}

/// The pattern view of an optional pattern argument.
pub open spec fn opt_str_view(p: Option<&str>) -> Option<Seq<char>> {
    match p {
        Some(s) => Some(s@),
        None => None,
    }
}

/// An absent pattern allows every file; a present one must match the
/// file's full path.
pub open spec fn spec_pattern_allows(pattern: Option<Seq<char>>, text: Seq<char>) -> bool {
    match pattern {
        None => true,
        Some(p) => regex_is_match(p, text),
    }
}

pub proof fn lemma_fs_size_pos(n: FsNode)
    ensures
        fs_size(n) >= 1,
{
    match n {
        FsNode::File { .. } => {}
        FsNode::Dir { .. } => {}
    }
}

/// What the per-file strategy yields for one prepared directory listing:
/// matching files become tests named by their stem, subdirectories with at
/// least one surviving test become categories.
pub open spec fn spec_pf_children(
    cat_name: Seq<char>,
    dir_path: Seq<char>,
    prepared: Seq<FsNode>,
    pattern: Option<Seq<char>>,
) -> Seq<DescNode>
    decreases fs_seq_size(prepared), 1nat,
    via spec_pf_children_decreases
{
    if prepared.len() == 0 {
        Seq::empty()
    } else {
        spec_pf_head(cat_name, dir_path, prepared[0], pattern) + spec_pf_children(
            cat_name,
            dir_path,
            prepared.drop_first(),
            pattern,
        )
    }
}

#[via_fn]
proof fn spec_pf_children_decreases(
    cat_name: Seq<char>,
    dir_path: Seq<char>,
    prepared: Seq<FsNode>,
    pattern: Option<Seq<char>>,
) {
    if prepared.len() > 0 {
        lemma_fs_size_pos(prepared[0]);
        lemma_fs_seq_size_elem(prepared, 0);
        assert(fs_seq_size(prepared) == fs_size(prepared[0]) + fs_seq_size(prepared.drop_first()));
    }
}

/// What one prepared entry contributes for the per-file strategy.
pub open spec fn spec_pf_head(
    cat_name: Seq<char>,
    dir_path: Seq<char>,
    e: FsNode,
    pattern: Option<Seq<char>>,
) -> Seq<DescNode>
    decreases fs_size(e), 0nat,
    via spec_pf_head_decreases
{
    match e {
        FsNode::File { name } => {
            let full_path = spec_join_path(dir_path, name);
            if spec_pattern_allows(pattern, full_path) {
                seq![
                    DescNode::Test {
                        name: spec_append_name(cat_name, spec_stem(name)),
                        path: full_path,
                        line_and_column: None,
                    },
                ]
            } else {
                Seq::empty()
            }
        }
        FsNode::Dir { name, entries } => {
            let sub_name = spec_append_name(cat_name, name);
            let sub_path = spec_join_path(dir_path, name);
            let children = spec_pf_children(sub_name, sub_path, spec_prepare(entries), pattern);
            if children.len() > 0 {
                seq![DescNode::Category { name: sub_name, path: sub_path, children }]
            } else {
                Seq::empty()
            }
        }
    }
}

#[via_fn]
proof fn spec_pf_head_decreases(
    cat_name: Seq<char>,
    dir_path: Seq<char>,
    e: FsNode,
    pattern: Option<Seq<char>>,
) {
    match e {
        FsNode::File { .. } => {}
        FsNode::Dir { name, entries } => {
            lemma_prepare_size(entries);
        }
    }
}

/// Whether some raw entry in the listing bears the given name.
pub open spec fn raw_has_name(entries: Seq<FsNode>, name: Seq<char>) -> bool {
    exists|i: int| 0 <= i < entries.len() && fs_name(#[trigger] entries[i]) == name
}

/// Whether some entry of the listing is a directory.
pub open spec fn seq_has_dir(entries: Seq<FsNode>) -> bool {
    exists|i: int| 0 <= i < entries.len() && (#[trigger] entries[i]) is Dir
}

/// What the collection mirror can fail with.
#[verifier::ext_equal]
pub enum CollectErrorView {
    MissingMarker { dir_path: Seq<char>, file_name: Seq<char> },
}

/// What the per-directory strategy yields for one raw directory listing.
pub open spec fn spec_pd_dir(
    cat_name: Seq<char>,
    dir_path: Seq<char>,
    raw: Seq<FsNode>,
    marker: Seq<char>,
) -> Result<Seq<DescNode>, CollectErrorView>
    decreases fs_seq_size(raw), 2nat,
    via spec_pd_dir_decreases
{
    let prepared = spec_prepare(raw);
    match spec_pd_list(cat_name, dir_path, prepared, marker) {
        Err(e) => Err(e),
        Ok(children) => {
            if !seq_has_dir(prepared) && prepared.len() > 0 {
                Err(CollectErrorView::MissingMarker { dir_path, file_name: marker })
            } else {
                Ok(children)
            }
        }
    }
}

#[via_fn]
proof fn spec_pd_dir_decreases(
    cat_name: Seq<char>,
    dir_path: Seq<char>,
    raw: Seq<FsNode>,
    marker: Seq<char>,
) {
    lemma_prepare_size(raw);
}

/// What a prepared listing yields under the per-directory strategy: a
/// directory holding the marker file becomes a test, one without it is
/// descended into, files are ignored.
pub open spec fn spec_pd_list(
    cat_name: Seq<char>,
    dir_path: Seq<char>,
    prepared: Seq<FsNode>,
    marker: Seq<char>,
) -> Result<Seq<DescNode>, CollectErrorView>
    decreases fs_seq_size(prepared), 1nat,
    via spec_pd_list_decreases
{
    if prepared.len() == 0 {
        Ok(Seq::empty())
    } else {
        match prepared[0] {
            FsNode::File { .. } => spec_pd_list(cat_name, dir_path, prepared.drop_first(), marker),
            FsNode::Dir { name, entries } => {
                if raw_has_name(entries, marker) {
                    let t = DescNode::Test {
                        name: spec_append_name(cat_name, name),
                        path: spec_join_path(spec_join_path(dir_path, name), marker),
                        line_and_column: None,
                    };
                    match spec_pd_list(cat_name, dir_path, prepared.drop_first(), marker) {
                        Err(e) => Err(e),
                        Ok(rest) => Ok(seq![t] + rest),
                    }
                } else {
                    match spec_pd_dir(
                        spec_append_name(cat_name, name),
                        spec_join_path(dir_path, name),
                        entries,
                        marker,
                    ) {
                        Err(e) => Err(e),
                        Ok(children) => {
                            if children.len() > 0 {
                                match spec_pd_list(
                                    cat_name,
                                    dir_path,
                                    prepared.drop_first(),
                                    marker,
                                ) {
                                    Err(e) => Err(e),
                                    Ok(rest) => Ok(
                                        seq![
                                            DescNode::Category {
                                                name: spec_append_name(cat_name, name),
                                                path: spec_join_path(dir_path, name),
                                                children,
                                            },
                                        ] + rest,
                                    ),
                                }
                            } else {
                                spec_pd_list(cat_name, dir_path, prepared.drop_first(), marker)
                            }
                        }
                    }
                }
            }
        }
    }
}

#[via_fn]
proof fn spec_pd_list_decreases(
    cat_name: Seq<char>,
    dir_path: Seq<char>,
    prepared: Seq<FsNode>,
    marker: Seq<char>,
) {
    if prepared.len() > 0 {
        lemma_fs_size_pos(prepared[0]);
        lemma_fs_seq_size_elem(prepared, 0);
        assert(fs_seq_size(prepared) == fs_size(prepared[0]) + fs_seq_size(prepared.drop_first()));
    }
}

fn vec_has_dir(entries: &Vec<FsEntry>) -> (r: bool)
    ensures
        r == seq_has_dir(entries_view(entries@)),
{
    let ghost ev = entries_view(entries@);
    proof {
        lemma_entries_view_len(entries@);
    }
    let mut i: usize = 0;
    while i < entries.len()
        invariant
            ev == entries_view(entries@),
            ev.len() == entries@.len(),
            0 <= i <= entries@.len(),
            forall|k: int| 0 <= k < i ==> !((#[trigger] ev[k]) is Dir),
        decreases entries@.len() - i,
    {
        let e = &entries[i];
        proof {
            lemma_entries_view_index(entries@, i as int);
        }
        match e {
            FsEntry::Dir { .. } => {
                assert(ev[i as int] is Dir);
                return true;
            }
            FsEntry::File { .. } => {}
        }
        i = i + 1;
    }
    false
}

fn raw_contains_name(entries: &Vec<FsEntry>, target: &str) -> (r: bool)
    ensures
        r == raw_has_name(entries_view(entries@), target@),
{
    let ghost ev = entries_view(entries@);
    proof {
        lemma_entries_view_len(entries@);
    }
    let mut i: usize = 0;
    while i < entries.len()
        invariant
            ev == entries_view(entries@),
            ev.len() == entries@.len(),
            0 <= i <= entries@.len(),
            forall|k: int| 0 <= k < i ==> fs_name(#[trigger] ev[k]) != target@,
        decreases entries@.len() - i,
    {
        let e = &entries[i];
        proof {
            lemma_entries_view_index(entries@, i as int);
        }
        if str_eq(entry_name(e).as_str(), target) {
            assert(fs_name(ev[i as int]) == target@);
            return true;
        }
        i = i + 1;
    }
    false
}

/// All the files in every sub directory will be traversed
/// to find tests that match the pattern.
///
/// Note: This ignores readme.md files and hidden entries
/// starting with a period.
pub fn collect_test_per_file(
    category_name: &str,
    dir_path: &str,
    entries: Vec<FsEntry>,
    pattern: Option<&str>,
) -> (r: Vec<CollectedCategoryOrTest<()>>)
    requires
        (match pattern {
            Some(p) => regex_pattern_ok(p@),
            None => true,
        }),
    ensures
        descs_of(children_view(r@)) == spec_pf_children(
            category_name@,
            dir_path@,
            spec_prepare(entries_view(entries@)),
            opt_str_view(pattern),
        ),
    decreases fs_seq_size(entries_view(entries@)), 2nat,
{
    let ghost raw_v = entries_view(entries@);
    let prepared = prepare_dir_entries(entries);
    proof {
        lemma_prepare_size(raw_v);
    }
    collect_pf_prepared(category_name, dir_path, prepared, pattern)
}

fn collect_pf_prepared(
    category_name: &str,
    dir_path: &str,
    prepared: Vec<FsEntry>,
    pattern: Option<&str>,
) -> (r: Vec<CollectedCategoryOrTest<()>>)
    requires
        (match pattern {
            Some(p) => regex_pattern_ok(p@),
            None => true,
        }),
    ensures
        descs_of(children_view(r@)) == spec_pf_children(
            category_name@,
            dir_path@,
            entries_view(prepared@),
            opt_str_view(pattern),
        ),
    decreases fs_seq_size(entries_view(prepared@)), 1nat,
{
    let mut prepared = prepared;
    let ghost orig = prepared@;
    let ghost orig_v = entries_view(orig);
    proof {
        lemma_entries_view_len(orig);
    }
    if prepared.len() == 0 {
        let out: Vec<CollectedCategoryOrTest<()>> = Vec::new();
        proof {
            assert(children_view(out@) =~= Seq::<TreeNode<()>>::empty());
            assert(descs_of(children_view(out@)) =~= Seq::<DescNode>::empty());
        }
        return out;
    }
    let first = prepared.remove(0);
    proof {
        assert(first == orig[0]);
        assert(prepared@ =~= orig.drop_first());
        lemma_entries_view_index(orig, 0);
        lemma_entries_view_drop_first(orig);
        lemma_fs_seq_size_elem(orig_v, 0);
        lemma_fs_size_pos(orig_v[0]);
        assert(fs_seq_size(orig_v) == fs_size(orig_v[0]) + fs_seq_size(orig_v.drop_first()));
        assert(entries_view(prepared@) == orig_v.drop_first());
    }
    let ghost pview = opt_str_view(pattern);
    let head_opt: Option<CollectedCategoryOrTest<()>> = match first {
        FsEntry::File { name } => {
            proof {
                assert(orig_v[0] == (FsNode::File { name: name@ }));
            }
            let full_path = join_path(dir_path, name.as_str());
            let is_match = match pattern {
                Some(p) => regex_text_matches(p, full_path.as_str()),
                None => true,
            };
            proof {
                assert(is_match == spec_pattern_allows(pview, spec_join_path(dir_path@, name@)));
            }
            if is_match {
                let stem = file_stem(name.as_str());
                let test_name = append_to_category_name(category_name, stem.as_str());
                let test = CollectedTest {
                    name: test_name,
                    path: full_path,
                    line_and_column: None,
                    data: (),
                };
                proof {
                    assert(desc_of_node(node_view(CollectedCategoryOrTest::Test(test)))
                        == (DescNode::Test {
                        name: spec_append_name(category_name@, spec_stem(name@)),
                        path: spec_join_path(dir_path@, name@),
                        line_and_column: None,
                    }));
                }
                Some(CollectedCategoryOrTest::Test(test))
            } else {
                None
            }
        }
        FsEntry::Dir { name, entries } => {
            proof {
                assert(orig_v[0] == (FsNode::Dir { name: name@, entries: entries_view(entries@) }));
                assert(fs_seq_size(entries_view(entries@)) < fs_size(orig_v[0]));
            }
            let sub_name = append_to_category_name(category_name, name.as_str());
            let sub_path = join_path(dir_path, name.as_str());
            let children = collect_test_per_file(sub_name.as_str(), sub_path.as_str(), entries, pattern);
            proof {
                lemma_children_view_len(children@);
                lemma_descs_of_len(children_view(children@));
            }
            if children.len() > 0 {
                let cat = CollectedTestCategory { name: sub_name, path: sub_path, children };
                proof {
                    assert(desc_of_node(node_view(CollectedCategoryOrTest::Category(cat)))
                        == (DescNode::Category {
                        name: spec_append_name(category_name@, name@),
                        path: spec_join_path(dir_path@, name@),
                        children: spec_pf_children(
                            spec_append_name(category_name@, name@),
                            spec_join_path(dir_path@, name@),
                            spec_prepare(entries_view(entries@)),
                            pview,
                        ),
                    }));
                }
                Some(CollectedCategoryOrTest::Category(cat))
            } else {
                None
            }
        }
    };
    proof {
        assert(spec_pf_head(category_name@, dir_path@, orig_v[0], pview) == (match head_opt {
            Some(node) => seq![desc_of_node(node_view(node))],
            None => Seq::<DescNode>::empty(),
        }));
    }
    let rest = collect_pf_prepared(category_name, dir_path, prepared, pattern);
    match head_opt {
        Some(node) => {
            let ghost rest_view = rest@;
            let mut out = rest;
            out.insert(0, node);
            proof {
                assert(out@[0] == node);
                assert(out@.drop_first() =~= rest_view);
                assert(children_view(out@) =~= seq![node_view(node)] + children_view(rest_view));
                lemma_descs_of_append(seq![node_view(node)], children_view(rest_view));
                lemma_descs_of_singleton(node_view(node));
                assert(descs_of(children_view(out@)) =~= spec_pf_children(
                    category_name@,
                    dir_path@,
                    orig_v,
                    pview,
                ));
            }
            out
        }
        None => {
            proof {
                assert(Seq::<DescNode>::empty() + descs_of(children_view(rest@)) =~= descs_of(
                    children_view(rest@),
                ));
                assert(descs_of(children_view(rest@)) =~= spec_pf_children(
                    category_name@,
                    dir_path@,
                    orig_v,
                    pview,
                ));
            }
            rest
        }
    }
}

/// How the built value of the per-directory walk relates to its mirror:
/// same children descriptions on success, the matching error otherwise.
pub open spec fn pd_outcome_matches(
    r: Result<Vec<CollectedCategoryOrTest<()>>, CollectTestsError>,
    s: Result<Seq<DescNode>, CollectErrorView>,
) -> bool {
    match (r, s) {
        (Ok(children), Ok(ds)) => descs_of(children_view(children@)) == ds,
        (Err(e), Err(ev)) => (match (e, ev) {
            (
                CollectTestsError::MissingDirectoryTestFile { dir_path, file_name },
                CollectErrorView::MissingMarker { dir_path: dp, file_name: fnm },
            ) => dir_path@ == dp && file_name@ == fnm,
            _ => false,
        }),
        _ => false,
    }
}

/// Recursively searches directories finding the provided
/// filename. If a directory sub tree does not contain the file
/// then an error is raised. Once a matching test file is found
/// in a directory, traversing will stop.
///
/// Note: This ignores hidden entries starting with a period.
pub fn collect_test_per_directory(
    category_name: &str,
    dir_path: &str,
    entries: Vec<FsEntry>,
    dir_test_file_name: &str,
) -> (r: Result<Vec<CollectedCategoryOrTest<()>>, CollectTestsError>)
    ensures
        pd_outcome_matches(
            r,
            spec_pd_dir(category_name@, dir_path@, entries_view(entries@), dir_test_file_name@),
        ),
    decreases fs_seq_size(entries_view(entries@)), 2nat,
{
    let ghost raw_v = entries_view(entries@);
    let prepared = prepare_dir_entries(entries);
    proof {
        lemma_prepare_size(raw_v);
        lemma_entries_view_len(prepared@);
    }
    let has_dir = vec_has_dir(&prepared);
    let was_empty = prepared.len() == 0;
    match collect_pd_list(category_name, dir_path, prepared, dir_test_file_name) {
        Err(e) => Err(e),
        Ok(children) => {
            if !has_dir && !was_empty {
                Err(
                    CollectTestsError::MissingDirectoryTestFile {
                        dir_path: String::from_str(dir_path),
                        file_name: String::from_str(dir_test_file_name),
                    },
                )
            } else {
                Ok(children)
            }
        }
    }
}

fn collect_pd_list(
    category_name: &str,
    dir_path: &str,
    prepared: Vec<FsEntry>,
    dir_test_file_name: &str,
) -> (r: Result<Vec<CollectedCategoryOrTest<()>>, CollectTestsError>)
    ensures
        pd_outcome_matches(
            r,
            spec_pd_list(
                category_name@,
                dir_path@,
                entries_view(prepared@),
                dir_test_file_name@,
            ),
        ),
    decreases fs_seq_size(entries_view(prepared@)), 1nat,
{
    let mut prepared = prepared;
    let ghost orig = prepared@;
    let ghost orig_v = entries_view(orig);
    proof {
        lemma_entries_view_len(orig);
    }
    if prepared.len() == 0 {
        let out: Vec<CollectedCategoryOrTest<()>> = Vec::new();
        proof {
            assert(children_view(out@) =~= Seq::<TreeNode<()>>::empty());
            assert(descs_of(children_view(out@)) =~= Seq::<DescNode>::empty());
        }
        return Ok(out);
    }
    let first = prepared.remove(0);
    proof {
        assert(first == orig[0]);
        assert(prepared@ =~= orig.drop_first());
        lemma_entries_view_index(orig, 0);
        lemma_entries_view_drop_first(orig);
        lemma_fs_seq_size_elem(orig_v, 0);
        lemma_fs_size_pos(orig_v[0]);
        assert(fs_seq_size(orig_v) == fs_size(orig_v[0]) + fs_seq_size(orig_v.drop_first()));
        assert(entries_view(prepared@) == orig_v.drop_first());
    }
    match first {
        FsEntry::File { name } => {
            proof {
                assert(orig_v[0] == (FsNode::File { name: name@ }));
            }
            collect_pd_list(category_name, dir_path, prepared, dir_test_file_name)
        }
        FsEntry::Dir { name, entries } => {
            proof {
                assert(orig_v[0] == (FsNode::Dir { name: name@, entries: entries_view(entries@) }));
                assert(fs_seq_size(entries_view(entries@)) < fs_size(orig_v[0]));
            }
            if raw_contains_name(&entries, dir_test_file_name) {
                let test_name = append_to_category_name(category_name, name.as_str());
                let test_path = join_path(
                    join_path(dir_path, name.as_str()).as_str(),
                    dir_test_file_name,
                );
                let test = CollectedTest {
                    name: test_name,
                    path: test_path,
                    line_and_column: None,
                    data: (),
                };
                let node = CollectedCategoryOrTest::Test(test);
                proof {
                    assert(desc_of_node(node_view(node)) == (DescNode::Test {
                        name: spec_append_name(category_name@, name@),
                        path: spec_join_path(
                            spec_join_path(dir_path@, name@),
                            dir_test_file_name@,
                        ),
                        line_and_column: None,
                    }));
                }
                match collect_pd_list(category_name, dir_path, prepared, dir_test_file_name) {
                    Err(e) => Err(e),
                    Ok(rest) => {
                        let ghost rest_view = rest@;
                        let mut out = rest;
                        out.insert(0, node);
                        proof {
                            assert(out@[0] == node);
                            assert(out@.drop_first() =~= rest_view);
                            assert(children_view(out@) =~= seq![node_view(node)] + children_view(
                                rest_view,
                            ));
                            lemma_descs_of_append(seq![node_view(node)], children_view(rest_view));
                            lemma_descs_of_singleton(node_view(node));
                        }
                        Ok(out)
                    }
                }
            } else {
                let sub_name = append_to_category_name(category_name, name.as_str());
                let sub_path = join_path(dir_path, name.as_str());
                match collect_test_per_directory(
                    sub_name.as_str(),
                    sub_path.as_str(),
                    entries,
                    dir_test_file_name,
                ) {
                    Err(e) => Err(e),
                    Ok(children) => {
                        proof {
                            lemma_children_view_len(children@);
                            lemma_descs_of_len(children_view(children@));
                        }
                        if children.len() > 0 {
                            let cat = CollectedTestCategory {
                                name: sub_name,
                                path: sub_path,
                                children,
                            };
                            let node = CollectedCategoryOrTest::Category(cat);
                            match collect_pd_list(
                                category_name,
                                dir_path,
                                prepared,
                                dir_test_file_name,
                            ) {
                                Err(e) => Err(e),
                                Ok(rest) => {
                                    let ghost rest_view = rest@;
                                    let mut out = rest;
                                    out.insert(0, node);
                                    proof {
                                        assert(out@[0] == node);
                                        assert(out@.drop_first() =~= rest_view);
                                        assert(children_view(out@) =~= seq![node_view(node)]
                                            + children_view(rest_view));
                                        lemma_descs_of_append(
                                            seq![node_view(node)],
                                            children_view(rest_view),
                                        );
                                        lemma_descs_of_singleton(node_view(node));
                                    }
                                    Ok(out)
                                }
                            }
                        } else {
                            collect_pd_list(category_name, dir_path, prepared, dir_test_file_name)
                        }
                    }
                }
            }
        }
    }
}

/// The first test name, in discovery order, that is unsafe for filtering.
pub open spec fn first_invalid_desc(ds: Seq<DescNode>) -> Option<Seq<char>>
    decreases ds, 1nat,
{
    if ds.len() == 0 {
        None
    } else {
        match first_invalid_in(ds[0]) {
            Some(n) => Some(n),
            None => first_invalid_desc(ds.drop_first()),
        }
    }
}

pub open spec fn first_invalid_in(d: DescNode) -> Option<Seq<char>>
    decreases d, 0nat,
{
    match d {
        DescNode::Test { name, .. } => if valid_name(name) {
            None
        } else {
            Some(name)
        },
        DescNode::Category { children, .. } => first_invalid_desc(children),
    }
}

pub broadcast proof fn lemma_first_invalid_desc_append(a: Seq<DescNode>, b: Seq<DescNode>)
    ensures
        #[trigger] first_invalid_desc(a + b) == (match first_invalid_desc(a) {
            Some(n) => Some(n),
            None => first_invalid_desc(b),
        }),
    decreases a.len(),
{
    if a.len() == 0 {
        assert(a + b =~= b);
    } else {
        assert((a + b).drop_first() =~= a.drop_first() + b);
        lemma_first_invalid_desc_append(a.drop_first(), b);
    }
}

pub broadcast proof fn lemma_first_invalid_desc_singleton(d: DescNode)
    ensures
        #[trigger] first_invalid_desc(seq![d]) == first_invalid_in(d),
{
    assert(seq![d].drop_first() =~= Seq::<DescNode>::empty());
    assert(first_invalid_desc(Seq::<DescNode>::empty()) is None);
    assert(seq![d][0] == d);
}

fn check_node_names<T>(node: &CollectedCategoryOrTest<T>) -> (r: Result<(), InvalidTestNameError>)
    ensures
        (match first_invalid_in(desc_of_node(node@)) {
            None => r is Ok,
            Some(n) => (r matches Err(e) && e.0@ == n),
        }),
    decreases *node,
{
    match node {
        CollectedCategoryOrTest::Test(t) => {
            if name_is_valid(t.name.as_str()) {
                Ok(())
            } else {
                Err(InvalidTestNameError(t.name.clone()))
            }
        }
        CollectedCategoryOrTest::Category(c) => {
            let ghost cs = children_view(c.children@);
            let ghost ds = descs_of(cs);
            proof {
                lemma_children_view_len(c.children@);
                lemma_descs_of_len(cs);
            }
            let mut i: usize = 0;
            while i < c.children.len()
                invariant
                    cs == children_view(c.children@),
                    ds == descs_of(cs),
                    node_view(*node) == cat_view(*c),
                    *node == CollectedCategoryOrTest::Category(*c),
                    0 <= i <= c.children.len(),
                    cs.len() == c.children.len(),
                    ds.len() == c.children.len(),
                    first_invalid_desc(ds.take(i as int)) is None,
                decreases c.children.len() - i,
            {
                let child = &c.children[i];
                proof {
                    lemma_children_view_index(c.children@, i as int);
                    assert(*child == c.children@[i as int]);
                    assert(decreases_to!(*c => c.children));
                    assert(decreases_to!(c.children => c.children@));
                    assert(decreases_to!(c.children@ => c.children@[i as int]));
                    assert(ds.take(i + 1) =~= ds.take(i as int) + seq![ds[i as int]]);
                    lemma_first_invalid_desc_append(ds.take(i as int), seq![ds[i as int]]);
                    lemma_first_invalid_desc_singleton(ds[i as int]);
                    assert(ds[i as int] == desc_of_node(cs[i as int])) by {
                        lemma_descs_of_index(cs, i as int);
                    }
                }
                match check_node_names(child) {
                    Err(e) => {
                        proof {
                            assert(ds =~= ds.take(i + 1) + ds.skip(i + 1));
                            lemma_first_invalid_desc_append(ds.take(i + 1), ds.skip(i + 1));
                        }
                        return Err(e);
                    }
                    Ok(()) => {}
                }
                i = i + 1;
            }
            proof {
                assert(ds.take(ds.len() as int) =~= ds);
            }
            Ok(())
        }
    }
}

pub broadcast proof fn lemma_descs_of_index<T>(ns: Seq<TreeNode<T>>, i: int)
    requires
        0 <= i < ns.len(),
    ensures
        #[trigger] descs_of(ns)[i] == desc_of_node(ns[i]),
    decreases ns.len(),
{
    lemma_descs_of_len(ns);
    if i > 0 {
        lemma_descs_of_index(ns.drop_first(), i - 1);
    }
}

/// Checks that every test name in the tree is safe for command-line
/// substring filtering, reporting the first offender in discovery order.
pub fn ensure_valid_test_names<T>(category: &CollectedTestCategory<T>) -> (r: Result<
    (),
    InvalidTestNameError,
>)
    ensures
        (match first_invalid_desc(descs_of(children_view(category.children@))) {
            None => r is Ok,
            Some(n) => (r matches Err(e) && e.0@ == n),
        }),
{
    let ghost cs = children_view(category.children@);
    let ghost ds = descs_of(cs);
    proof {
        lemma_children_view_len(category.children@);
        lemma_descs_of_len(cs);
    }
    let mut i: usize = 0;
    while i < category.children.len()
        invariant
            cs == children_view(category.children@),
            ds == descs_of(cs),
            0 <= i <= category.children.len(),
            cs.len() == category.children.len(),
            ds.len() == category.children.len(),
            first_invalid_desc(ds.take(i as int)) is None,
        decreases category.children.len() - i,
    {
        let child = &category.children[i];
        proof {
            lemma_children_view_index(category.children@, i as int);
            assert(*child == category.children@[i as int]);
            assert(ds.take(i + 1) =~= ds.take(i as int) + seq![ds[i as int]]);
            lemma_first_invalid_desc_append(ds.take(i as int), seq![ds[i as int]]);
            lemma_first_invalid_desc_singleton(ds[i as int]);
            lemma_descs_of_index(cs, i as int);
        }
        match check_node_names(child) {
            Err(e) => {
                proof {
                    assert(ds =~= ds.take(i + 1) + ds.skip(i + 1));
                    lemma_first_invalid_desc_append(ds.take(i + 1), ds.skip(i + 1));
                }
                return Err(e);
            }
            Ok(()) => {}
        }
        i = i + 1;
    }
    proof {
        assert(ds.take(ds.len() as int) =~= ds);
    }
    Ok(())
}

/// Filtering, stated on descriptions: what `filter_children` does to the
/// names and paths the tree promises.
pub open spec fn spec_desc_filter(ds: Seq<DescNode>, f: Seq<char>) -> Seq<DescNode>
    decreases ds, 1nat,
{
    if ds.len() == 0 {
        Seq::empty()
    } else {
        spec_desc_filter_head(ds[0], f) + spec_desc_filter(ds.drop_first(), f)
    }
}

pub open spec fn spec_desc_filter_head(d: DescNode, f: Seq<char>) -> Seq<DescNode>
    decreases d, 0nat,
{
    match d {
        DescNode::Test { name, .. } => if contains_seq(name, f) {
            seq![d]
        } else {
            Seq::empty()
        },
        DescNode::Category { name, path, children } => {
            let fc = DescNode::Category { name, path, children: spec_desc_filter(children, f) };
            if desc_count(fc) != 0 {
                seq![fc]
            } else {
                Seq::empty()
            }
        }
    }
}

/// Filtering the tree and describing it is the same as describing it and
/// filtering the description.
pub proof fn lemma_desc_filter_commutes<T>(ns: Seq<TreeNode<T>>, f: Seq<char>)
    ensures
        descs_of(spec_filter_children(ns, f)) == spec_desc_filter(descs_of(ns), f),
    decreases ns, 1nat,
{
    if ns.len() == 0 {
    } else {
        lemma_desc_filter_commutes(ns.drop_first(), f);
        lemma_desc_filter_head_commutes(ns[0], f);
        lemma_descs_of_append(spec_filter_head(ns[0], f), spec_filter_children(ns.drop_first(), f));
        assert(descs_of(ns)[0] == desc_of_node(ns[0])) by {
            lemma_descs_of_index(ns, 0);
        }
        assert(descs_of(ns).drop_first() =~= descs_of(ns.drop_first()));
        assert(descs_of(spec_filter_children(ns, f)) =~= spec_desc_filter(descs_of(ns), f));
    }
}

pub proof fn lemma_desc_filter_head_commutes<T>(n: TreeNode<T>, f: Seq<char>)
    ensures
        descs_of(spec_filter_head(n, f)) == spec_desc_filter_head(desc_of_node(n), f),
    decreases n, 0nat,
{
    match n {
        TreeNode::Test(t) => {
            if contains_seq(t.name@, f) {
                lemma_descs_of_singleton(n);
            }
        }
        TreeNode::Category { name, path, children } => {
            lemma_desc_filter_commutes(children, f);
            let fc = TreeNode::Category { name, path, children: spec_filter_children(children, f) };
            let dfc = DescNode::Category {
                name,
                path,
                children: spec_desc_filter(descs_of(children), f),
            };
            lemma_desc_count(fc);
            assert(desc_of_node(fc) =~= dfc);
            if node_count(fc) != 0 {
                lemma_descs_of_singleton(fc);
            }
        }
    }
}

/// The last `/`-separated segment of a path: what names the root category
/// when a strategy derives it from the base directory.
pub open spec fn last_slash_from(path: Seq<char>, j: int) -> int
    decreases j,
{
    if j <= 0 {
        -1
    } else if path[j - 1] == '/' {
        j - 1
    } else {
        last_slash_from(path, j - 1)
    }
}

pub open spec fn spec_base_name(path: Seq<char>) -> Seq<char> {
    let d = last_slash_from(path, path.len() as int);
    if d < 0 {
        path
    } else {
        path.skip(d + 1)
    }
}

fn find_last_slash(path: &str, j: usize, path_len: usize) -> (r: Option<usize>)
    requires
        path_len == path@.len(),
        j <= path_len,
    ensures
        (match r {
            Some(i) => i as int == last_slash_from(path@, j as int) && i < path_len,
            None => last_slash_from(path@, j as int) == -1,
        }),
    decreases j,
{
    if j == 0 {
        None
    } else if path.get_char(j - 1) == '/' {
        Some(j - 1)
    } else {
        find_last_slash(path, j - 1, path_len)
    }
}

/// The name of the entry a path points at, as `Path::file_name` shows it.
pub fn base_name(path: &str) -> (r: String)
    ensures
        r@ == spec_base_name(path@),
{
    let path_len: usize = path.unicode_len();
    match find_last_slash(path, path_len, path_len) {
        Some(d) => {
            let name = path.substring_char(d + 1, path_len);
            proof {
                assert(path@.subrange(d + 1, path_len as int) =~= path@.skip(d + 1));
            }
            String::from_str(name)
        }
        None => String::from_str(path),
    }
}

/// How a test tree is collected from a directory snapshot.
#[derive(Debug, Clone, PartialEq, Eq)]
pub enum FileCollectionStrategy {
    /// All the files in every sub directory will be traversed
    /// to find tests that match the pattern.
    ///
    /// Provide `None` to match all files.
    TestPerFile { file_pattern: Option<String> },
    /// Once a matching test file is found in a directory, traversing will stop.
    TestPerDirectory {
        /// The filename to find in the directory.
        file_name: String,
    },
}

/// What to collect and how: the base directory's path, the strategy, the
/// name of the root category, and an optional name filter.
pub struct CollectTestsOptions {
    /// Path of the base directory whose snapshot is handed in.
    pub base: String,
    /// Strategy to use for collecting tests.
    pub strategy: FileCollectionStrategy,
    /// Name of the category to use at the top level.
    ///
    /// Ex. providing `"specs"` here will cause all tests
    /// to be prefixed with `specs::` in their name.
    pub root_category_name: String,
    /// Override the filter provided on the command line.
    ///
    /// Generally, just provide `None` here.
    pub filter_override: Option<String>,
}

/// What collection yields, stated over the inputs alone: the failure that
/// stops it, or the descriptions of the tree it hands back.
pub enum CollectOutcome {
    BadPattern { pattern: Seq<char> },
    Missing { dir_path: Seq<char>, file_name: Seq<char> },
    NoTests,
    BadName { name: Seq<char> },
    Built { children: Seq<DescNode> },
}

/// The checks that follow collection: no tests collected is an error,
/// then every name must be filterable, then the optional filter prunes.
pub open spec fn spec_collect_finish(
    children: Seq<DescNode>,
    filter: Option<Seq<char>>,
) -> CollectOutcome {
    if descs_count(children) == 0 {
        CollectOutcome::NoTests
    } else {
        match first_invalid_desc(children) {
            Some(n) => CollectOutcome::BadName { name: n },
            None => match filter {
                None => CollectOutcome::Built { children },
                Some(f) => CollectOutcome::Built { children: spec_desc_filter(children, f) },
            },
        }
    }
}

/// The whole collection pipeline: strategy walk, the no-tests check, name
/// validation, then filtering.
pub open spec fn spec_collect_tests(
    strategy: FileCollectionStrategy,
    root_name: Seq<char>,
    base: Seq<char>,
    filter: Option<Seq<char>>,
    entries: Seq<FsNode>,
) -> CollectOutcome {
    match strategy {
        FileCollectionStrategy::TestPerFile { file_pattern } => {
            match file_pattern {
                Some(p) => {
                    if !regex_pattern_ok(p@) {
                        CollectOutcome::BadPattern { pattern: p@ }
                    } else {
                        spec_collect_finish(
                            spec_pf_children(root_name, base, spec_prepare(entries), Some(p@)),
                            filter,
                        )
                    }
                }
                None => spec_collect_finish(
                    spec_pf_children(root_name, base, spec_prepare(entries), None),
                    filter,
                ),
            }
        }
        FileCollectionStrategy::TestPerDirectory { file_name } => {
            match spec_pd_dir(root_name, base, entries, file_name@) {
                Err(CollectErrorView::MissingMarker { dir_path, file_name }) => {
                    CollectOutcome::Missing { dir_path, file_name }
                }
                Ok(children) => spec_collect_finish(children, filter),
            }
        }
    }
}

/// Collects the test tree from a snapshot of the base directory: walks it
/// by the chosen strategy, rejects an empty result, rejects unsafe test
/// names, and prunes by the filter. A tree that the filter empties is
/// returned as an empty root, not treated as an error: only collecting
/// nothing in the first place is one.
pub fn collect_tests(options: CollectTestsOptions, entries: Vec<FsEntry>) -> (r: Result<
    CollectedTestCategory<()>,
    CollectTestsError,
>)
    ensures
        (match spec_collect_tests(
            options.strategy,
            options.root_category_name@,
            options.base@,
            (match options.filter_override {
                Some(f) => Some(f@),
                None => None,
            }),
            entries_view(entries@),
        ) {
            CollectOutcome::BadPattern { pattern } => (r matches Err(
                CollectTestsError::InvalidPattern { pattern: p },
            ) && p@ == pattern),
            CollectOutcome::Missing { dir_path, file_name } => (r matches Err(
                CollectTestsError::MissingDirectoryTestFile { dir_path: d, file_name: f2 },
            ) && d@ == dir_path && f2@ == file_name),
            CollectOutcome::NoTests => (r matches Err(CollectTestsError::NoTestsFound)),
            CollectOutcome::BadName { name } => (r matches Err(
                CollectTestsError::InvalidTestName(e),
            ) && e.0@ == name),
            CollectOutcome::Built { children } => (r matches Ok(cat) && cat.name@
                == options.root_category_name@ && cat.path@ == options.base@ && descs_of(
                children_view(cat.children@),
            ) == children),
        }),
{
    let CollectTestsOptions { base, strategy, root_category_name, filter_override } = options;
    let children_res: Result<Vec<CollectedCategoryOrTest<()>>, CollectTestsError> = match &strategy {
        FileCollectionStrategy::TestPerFile { file_pattern } => {
            match file_pattern {
                Some(p) => {
                    if !regex_pattern_is_valid(p.as_str()) {
                        return Err(CollectTestsError::InvalidPattern { pattern: p.clone() });
                    }
                    Ok(
                        collect_test_per_file(
                            root_category_name.as_str(),
                            base.as_str(),
                            entries,
                            Some(p.as_str()),
                        ),
                    )
                }
                None => Ok(
                    collect_test_per_file(
                        root_category_name.as_str(),
                        base.as_str(),
                        entries,
                        None,
                    ),
                ),
            }
        }
        FileCollectionStrategy::TestPerDirectory { file_name } => {
            collect_test_per_directory(
                root_category_name.as_str(),
                base.as_str(),
                entries,
                file_name.as_str(),
            )
        }
    };
    let children = match children_res {
        Ok(c) => c,
        Err(e) => {
            return Err(e);
        }
    };
    let ghost built = descs_of(children_view(children@));
    let mut category = CollectedTestCategory { name: root_category_name, path: base, children };
    proof {
        lemma_descs_count(children_view(category.children@));
    }
    if category.is_empty() {
        return Err(CollectTestsError::NoTestsFound);
    }
    match ensure_valid_test_names(&category) {
        Err(e) => {
            return Err(CollectTestsError::InvalidTestName(e));
        }
        Ok(()) => {}
    }
    match &filter_override {
        Some(filter) => {
            let ghost before = children_view(category.children@);
            category.filter_children(filter.as_str());
            proof {
                lemma_desc_filter_commutes(before, filter@);
            }
        }
        None => {}
    }
    Ok(category)
}

/// Strategy for collecting tests from a directory snapshot.
pub trait TestCollectionStrategy<TData> {
    /// Return the tree of tests found in the snapshot of the base path.
    fn collect_tests(&self, base: &str, entries: Vec<FsEntry>) -> Result<
        CollectedTestCategory<TData>,
        CollectTestsError,
    >;
}

/// All the files in every sub directory will be traversed
/// to find tests that match the pattern.
///
/// Provide `None` to match all files.
///
/// Note: This ignores readme.md files and hidden entries
/// starting with a period.
#[derive(Debug, Clone, Default)]
pub struct TestPerFileCollectionStrategy {
    pub file_pattern: Option<String>,
}

impl TestCollectionStrategy<()> for TestPerFileCollectionStrategy {
    /// Walks the snapshot of the base directory: the root category is
    /// named after the base path's last segment, and a pattern that does
    /// not compile is the only failure.
    fn collect_tests(&self, base: &str, entries: Vec<FsEntry>) -> (r: Result<
        CollectedTestCategory<()>,
        CollectTestsError,
    >)
        ensures
            (match self.file_pattern {
                Some(p) => {
                    if !regex_pattern_ok(p@) {
                        r matches Err(CollectTestsError::InvalidPattern { pattern }) && pattern@
                            == p@
                    } else {
                        r matches Ok(cat) && cat.name@ == spec_base_name(base@) && cat.path@
                            == base@ && descs_of(children_view(cat.children@)) == spec_pf_children(
                            spec_base_name(base@),
                            base@,
                            spec_prepare(entries_view(entries@)),
                            Some(p@),
                        )
                    }
                }
                None => r matches Ok(cat) && cat.name@ == spec_base_name(base@) && cat.path@
                    == base@ && descs_of(children_view(cat.children@)) == spec_pf_children(
                    spec_base_name(base@),
                    base@,
                    spec_prepare(entries_view(entries@)),
                    None,
                ),
            }),
    {
        let root = base_name(base);
        match &self.file_pattern {
            Some(p) => {
                if !regex_pattern_is_valid(p.as_str()) {
                    Err(CollectTestsError::InvalidPattern { pattern: p.clone() })
                } else {
                    let children = collect_test_per_file(
                        root.as_str(),
                        base,
                        entries,
                        Some(p.as_str()),
                    );
                    Ok(
                        CollectedTestCategory {
                            name: root,
                            path: String::from_str(base),
                            children,
                        },
                    )
                }
            }
            None => {
                let children = collect_test_per_file(root.as_str(), base, entries, None);
                Ok(CollectedTestCategory { name: root, path: String::from_str(base), children })
            }
        }
    }
}

/// Recursively searches directories finding the provided
/// filename. If a directory sub tree does not contain the file
/// then an error is raised. Once a matching test file is found
/// in a directory, traversing will stop.
///
/// Note: This ignores hidden entries starting with a period.
#[derive(Debug, Clone)]
pub struct TestPerDirectoryCollectionStrategy {
    /// The file name to search for in each directory.
    ///
    /// Example: `__test__.jsonc`
    pub file_name: String,
}

impl TestCollectionStrategy<()> for TestPerDirectoryCollectionStrategy {
    /// Walks the snapshot of the base directory: the root category is
    /// named after the base path's last segment, and the walk's missing
    /// marker error is the only failure.
    fn collect_tests(&self, base: &str, entries: Vec<FsEntry>) -> (r: Result<
        CollectedTestCategory<()>,
        CollectTestsError,
    >)
        ensures
            (match spec_pd_dir(
                spec_base_name(base@),
                base@,
                entries_view(entries@),
                self.file_name@,
            ) {
                Ok(ds) => r matches Ok(cat) && cat.name@ == spec_base_name(base@) && cat.path@
                    == base@ && descs_of(children_view(cat.children@)) == ds,
                Err(CollectErrorView::MissingMarker { dir_path, file_name }) => r matches Err(
                    CollectTestsError::MissingDirectoryTestFile { dir_path: d, file_name: f2 },
                ) && d@ == dir_path && f2@ == file_name,
            }),
    {
        let root = base_name(base);
        let children = collect_test_per_directory(
            root.as_str(),
            base,
            entries,
            self.file_name.as_str(),
        )?;
        Ok(CollectedTestCategory { name: root, path: String::from_str(base), children })
    }
}

/// Maps collected tests into categories or other tests.
///
/// This is useful if you want to read a file, extract out all the tests,
/// then map the file into a category of tests.
#[verifier::reject_recursive_types(TData)]
pub struct FileTestMapperStrategy<TData, TMapper, TBaseStrategy> where
    TMapper: Fn(CollectedTest<()>) -> Result<CollectedCategoryOrTest<TData>, CollectTestsError>,
    TBaseStrategy: TestCollectionStrategy<()>,
 {
    /// Base strategy to use for collecting files.
    pub base_strategy: TBaseStrategy,
    /// Map function to map tests to a category or another test.
    pub map: TMapper,
}

/// Every test of the original tree was mapped through the given function:
/// categories keep their name, path and child count, and each original
/// test's position holds a possible output of the mapping for it.
pub open spec fn maps_children<TData, TMapper: Fn(CollectedTest<()>) -> Result<
    CollectedCategoryOrTest<TData>,
    CollectTestsError,
>>(orig: Seq<TreeNode<()>>, new: Seq<TreeNode<TData>>, map: TMapper) -> bool
    decreases orig, 1nat,
{
    &&& new.len() == orig.len()
    &&& (orig.len() > 0 ==> maps_node(orig[0], new[0], map) && maps_children(
        orig.drop_first(),
        new.drop_first(),
        map,
    ))
}

pub open spec fn maps_node<TData, TMapper: Fn(CollectedTest<()>) -> Result<
    CollectedCategoryOrTest<TData>,
    CollectTestsError,
>>(orig: TreeNode<()>, new: TreeNode<TData>, map: TMapper) -> bool
    decreases orig, 0nat,
{
    match orig {
        TreeNode::Test(t) => exists|v: CollectedCategoryOrTest<TData>|
            #[trigger] call_ensures(map, (t,), Ok(v)) && new == node_view(v),
        TreeNode::Category { name, path, children } => (match new {
            TreeNode::Category { name: n2, path: p2, children: c2 } => n2 == name && p2 == path
                && maps_children(children, c2, map),
            TreeNode::Test(_) => false,
        }),
    }
}

impl<
    TData,
    TMapper: Fn(CollectedTest<()>) -> Result<CollectedCategoryOrTest<TData>, CollectTestsError>
        + Copy,
    TBaseStrategy: TestCollectionStrategy<()>,
> FileTestMapperStrategy<TData, TMapper, TBaseStrategy> {
    /// Maps every test of the category through the mapping function,
    /// keeping the category structure. The first error the mapping
    /// function returns aborts the walk and is handed back unchanged; a
    /// category without tests cannot fail.
    pub fn map_category(&self, category: CollectedTestCategory<()>) -> (r: Result<
        CollectedTestCategory<TData>,
        CollectTestsError,
    >)
        requires
            forall|t: CollectedTest<()>| #[trigger] call_requires(self.map, (t,)),
        ensures
            (r matches Ok(out) ==> out.name@ == category.name@ && out.path@ == category.path@
                && maps_children(
                children_view(category.children@),
                children_view(out.children@),
                self.map,
            )),
            (r matches Err(e) ==> exists|t: CollectedTest<()>|
                #[trigger] call_ensures(self.map, (t,), Err(e))),
            node_count(cat_view(category)) == 0 ==> r is Ok,
        decreases cat_view(category), 1nat,
    {
        let CollectedTestCategory { name, path, children } = category;
        let ghost cs = children_view(children@);
        proof {
            assert(cat_view(category) == (TreeNode::Category {
                name: name@,
                path: path@,
                children: cs,
            }));
            let cv = cat_view(category);
            match cv {
                TreeNode::Category { name: n2, path: p2, children: c2 } => {
                    assert(c2 == cs);
                    assert(decreases_to!(cv => c2));
                }
                TreeNode::Test(_) => {}
            }
        }
        let new_children = self.map_children(children)?;
        Ok(CollectedTestCategory { name, path, children: new_children })
    }

    fn map_children(&self, children: Vec<CollectedCategoryOrTest<()>>) -> (r: Result<
        Vec<CollectedCategoryOrTest<TData>>,
        CollectTestsError,
    >)
        requires
            forall|t: CollectedTest<()>| #[trigger] call_requires(self.map, (t,)),
        ensures
            (r matches Ok(out) ==> maps_children(
                children_view(children@),
                children_view(out@),
                self.map,
            )),
            (r matches Err(e) ==> exists|t: CollectedTest<()>|
                #[trigger] call_ensures(self.map, (t,), Err(e))),
            nodes_count(children_view(children@)) == 0 ==> r is Ok,
        decreases children_view(children@), 2nat,
    {
        let mut children = children;
        let ghost orig = children@;
        let ghost cs = children_view(orig);
        proof {
            lemma_children_view_len(orig);
        }
        if children.len() == 0 {
            let out: Vec<CollectedCategoryOrTest<TData>> = Vec::new();
            proof {
                assert(children_view(out@).len() == 0);
            }
            return Ok(out);
        }
        let first = children.remove(0);
        proof {
            assert(first == orig[0]);
            assert(children@ =~= orig.drop_first());
            lemma_children_view_index(orig, 0);
            crate::tree::lemma_children_view_singleton(first);
            assert(children_view(orig) =~= seq![node_view(orig[0])] + children_view(
                orig.drop_first(),
            ));
            assert(decreases_to!(cs => cs[0]));
            assert(cs.drop_first() =~= children_view(orig.drop_first()));
            assert(decreases_to!(cs => cs.drop_first())) by {
                vstd::seq::axiom_seq_subrange_decreases(cs, 1, cs.len() as int);
            }
        }
        proof {
            crate::tree::lemma_nodes_count_singleton(cs[0]);
            crate::tree::lemma_nodes_count_append(seq![cs[0]], children_view(orig.drop_first()));
            assert(cs =~= seq![cs[0]] + children_view(orig.drop_first()));
        }
        let mapped_first: CollectedCategoryOrTest<TData> = match first {
            CollectedCategoryOrTest::Category(c) => {
                proof {
                    assert(node_view(orig[0]) == cat_view(c));
                }
                match self.map_category(c) {
                    Ok(mapped) => CollectedCategoryOrTest::Category(mapped),
                    Err(e) => {
                        proof {
                            assert(node_count(cs[0]) != 0);
                        }
                        return Err(e);
                    }
                }
            }
            CollectedCategoryOrTest::Test(t) => {
                let ghost t_in = t;
                match (self.map)(t) {
                    Ok(mapped) => mapped,
                    Err(e) => {
                        proof {
                            assert(call_ensures(
                                self.map,
                                (t_in,),
                                Err::<CollectedCategoryOrTest<TData>, CollectTestsError>(e),
                            ));
                            assert(node_count(cs[0]) == 1);
                        }
                        return Err(e);
                    }
                }
            }
        };
        let rest = match self.map_children(children) {
            Ok(rest) => rest,
            Err(e) => {
                return Err(e);
            }
        };
        let ghost rest_v = rest@;
        let mut out = rest;
        out.insert(0, mapped_first);
        proof {
            assert(out@[0] == mapped_first);
            assert(out@.drop_first() =~= rest_v);
            assert(children_view(out@) =~= seq![node_view(mapped_first)] + children_view(rest_v));
            assert(maps_node(cs[0], node_view(mapped_first), self.map));
            assert(children_view(out@)[0] == node_view(mapped_first));
            assert(children_view(out@).drop_first() =~= children_view(rest_v));
            assert(maps_children(cs, children_view(out@), self.map));
        }
        Ok(out)
    }

    /// Collects with the base strategy, then maps every discovered test.
    /// Whatever tree the base strategy produced, the returned one is that
    /// tree with every test mapped in place.
    pub fn collect_tests(&self, base: &str, entries: Vec<FsEntry>) -> (r: Result<
        CollectedTestCategory<TData>,
        CollectTestsError,
    >)
        requires
            forall|t: CollectedTest<()>| #[trigger] call_requires(self.map, (t,)),
        ensures
            (r matches Ok(out) ==> exists|c: CollectedTestCategory<()>|
                out.name@ == c.name@ && out.path@ == c.path@ && #[trigger] maps_children(
                    children_view(c.children@),
                    children_view(out.children@),
                    self.map,
                )),
    {
        let category = match self.base_strategy.collect_tests(base, entries) {
            Ok(category) => category,
            Err(e) => {
                return Err(e);
            }
        };
        let ghost collected = category;
        match self.map_category(category) {
            Ok(out) => {
                proof {
                    assert(maps_children(
                        children_view(collected.children@),
                        children_view(out.children@),
                        self.map,
                    ));
                }
                Ok(out)
            }
            Err(e) => Err(e),
        }
    }
}

} // verus!
