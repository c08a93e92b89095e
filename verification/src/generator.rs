//! The tree walker: a depth-bounded, deterministic recursion over an
//! in-memory picture of the directory tree, consulting the ignore resolver
//! and the text-file classification, producing the printable tree lines and
//! the ordered list of files whose contents are dumped afterwards.

use vstd::prelude::*;

use crate::chars::{
    basename_exec, basename_spec, chars_of, concat_chars, eq_chars, lex_le, lex_le_exec, string_of,
};
use crate::config::Config;
use crate::gitignore::{
    spec_resolve, spec_scope_of, HierarchicalGitignoreManager, IgnoreFileData, ScopeV,
};
use crate::globx::{glob_match, glob_ok, try_glob_match};

verus! {

/// One directory entry of the in-memory tree: a name and what is under it.
pub struct FsEntry {
    pub name: String,
    pub tree: FsTree,
}

/// The in-memory picture of a file or directory, as the walker needs it:
/// whether a file passed the text heuristic, whether a directory could be
/// listed, and the directory's entries.
pub enum FsTree {
    File { is_text: bool },
    Dir { readable: bool, entries: Vec<FsEntry> },
}

// ------------------------------------------------------------------
// entry ordering: directories before files, then by name
// ------------------------------------------------------------------

pub open spec fn entry_le(a: FsEntry, b: FsEntry) -> bool {
    let ad = a.tree is Dir;
    let bd = b.tree is Dir;
    if ad != bd {
        ad
    } else {
        lex_le(a.name@, b.name@)
    }
}

fn entry_le_exec(a: &FsEntry, b: &FsEntry) -> (r: bool)
    ensures
        r == entry_le(*a, *b),
{
    let ad = match &a.tree {
        FsTree::Dir { .. } => true,
        FsTree::File { .. } => false,
    };
    let bd = match &b.tree {
        FsTree::Dir { .. } => true,
        FsTree::File { .. } => false,
    };
    if ad != bd {
        ad
    } else {
        let an = chars_of(a.name.as_str());
        let bn = chars_of(b.name.as_str());
        lex_le_exec(&an, &bn)
    }
}

/// Stable insertion of index `k` into an index sequence already sorted for
/// `s`: `k` goes after every index whose entry compares at-or-before `s[k]`.
pub open spec fn insert_idx(s: Seq<FsEntry>, k: int, perm: Seq<int>) -> Seq<int>
    decreases perm.len(),
{
    if perm.len() == 0 {
        seq![k]
    } else if 0 <= perm[0] < s.len() && 0 <= k < s.len() && entry_le(s[perm[0]], s[k]) {
        seq![perm[0]] + insert_idx(s, k, perm.skip(1))
    } else {
        seq![k] + perm
    }
}

pub open spec fn sort_perm_upto(s: Seq<FsEntry>, n: int) -> Seq<int>
    decreases n,
{
    if n <= 0 {
        Seq::<int>::empty()
    } else {
        insert_idx(s, n - 1, sort_perm_upto(s, n - 1))
    }
}

/// The listing order of a directory: a stable insertion sort of the entry
/// indices under `entry_le`, so directories come before files and each group
/// is alphabetical.
pub open spec fn sort_perm(s: Seq<FsEntry>) -> Seq<int> {
    sort_perm_upto(s, s.len() as int)
}

proof fn lemma_insert_idx_at(s: Seq<FsEntry>, k: int, perm: Seq<int>, j: int)
    requires
        0 <= k < s.len(),
        forall|m: int| 0 <= m < perm.len() ==> 0 <= #[trigger] perm[m] < s.len(),
        0 <= j <= perm.len(),
        forall|m: int| 0 <= m < j ==> entry_le(s[#[trigger] perm[m]], s[k]),
        j < perm.len() ==> !entry_le(s[perm[j]], s[k]),
    ensures
        insert_idx(s, k, perm) == perm.take(j) + seq![k] + perm.skip(j),
    decreases j,
{
    if j == 0 {
        assert(perm.take(0) =~= Seq::<int>::empty());
        assert(perm.skip(0) =~= perm);
        if perm.len() == 0 {
            assert(insert_idx(s, k, perm) =~= seq![k] + perm);
        } else {
            assert(!entry_le(s[perm[0]], s[k]));
        }
        assert(perm.take(0) + seq![k] + perm.skip(0) =~= seq![k] + perm);
    } else {
        assert(entry_le(s[perm[0]], s[k]));
        lemma_insert_idx_at(s, k, perm.skip(1), j - 1);
        assert(perm.skip(1).take(j - 1) =~= perm.take(j).skip(1));
        assert(perm.skip(1).skip(j - 1) =~= perm.skip(j));
        assert(seq![perm[0]] + (perm.skip(1).take(j - 1) + seq![k] + perm.skip(1).skip(j - 1))
            =~= perm.take(j) + seq![k] + perm.skip(j));
        assert(insert_idx(s, k, perm) == seq![perm[0]] + insert_idx(s, k, perm.skip(1)));
    }
}

fn sort_indices(entries: &Vec<FsEntry>) -> (r: Vec<usize>)
    ensures
        r@.map_values(|u: usize| u as int) == sort_perm(entries@),
        r@.len() == entries@.len(),
        forall|m: int| 0 <= m < r@.len() ==> #[trigger] r@[m] < entries@.len(),
{
    let mut idx: Vec<usize> = Vec::new();
    proof {
        assert(idx@.map_values(|u: usize| u as int) =~= sort_perm_upto(entries@, 0));
    }
    let mut n: usize = 0;
    while n < entries.len()
        invariant
            0 <= n <= entries@.len(),
            idx@.len() == n,
            forall|m: int| 0 <= m < idx@.len() ==> #[trigger] idx@[m] < entries@.len(),
            idx@.map_values(|u: usize| u as int) == sort_perm_upto(entries@, n as int),
        decreases entries.len() - n,
    {
        let ghost permv: Seq<int> = idx@.map_values(|u: usize| u as int);
        let mut j: usize = 0;
        while j < idx.len() && entry_le_exec(&entries[idx[j]], &entries[n])
            invariant
                0 <= j <= idx@.len(),
                n < entries@.len(),
                idx@.len() == n,
                forall|m: int| 0 <= m < idx@.len() ==> #[trigger] idx@[m] < entries@.len(),
                permv == idx@.map_values(|u: usize| u as int),
                forall|m: int|
                    0 <= m < j ==> entry_le(entries@[#[trigger] permv[m]], entries@[n as int]),
            decreases idx.len() - j,
        {
            j += 1;
        }
        proof {
            lemma_insert_idx_at(entries@, n as int, permv, j as int);
        }
        idx.insert(j, n);
        proof {
            assert(idx@.map_values(|u: usize| u as int) =~= permv.take(j as int) + seq![n as int]
                + permv.skip(j as int));
        }
        n += 1;
    }
    idx
}

// ------------------------------------------------------------------
// the walk itself
// ------------------------------------------------------------------

/// Everything the walk's decisions depend on.
pub struct WalkCfg {
    pub max_depth: Option<u32>,
    pub show_ignored: bool,
    pub show_binary: bool,
    pub out_name: Seq<char>,
    pub scopes: Option<Seq<ScopeV>>,
}

/// What a walk produces: the printable tree lines and the kept file paths.
#[verifier::ext_equal]
pub struct WalkOut {
    pub lines: Seq<Seq<char>>,
    pub files: Seq<Seq<char>>,
}

pub open spec fn empty_out() -> WalkOut {
    WalkOut { lines: Seq::<Seq<char>>::empty(), files: Seq::<Seq<char>>::empty() }
}

/// The depth guard: a branch whose depth exceeds the configured maximum
/// emits nothing at all; depth is also capped at the width of its counter.
pub open spec fn depth_cut(md: Option<u32>, depth: int) -> bool {
    depth >= u32::MAX || (md matches Some(m) && depth > m)
}

pub open spec fn walk_ignored(c: WalkCfg, path: Seq<char>, is_dir: bool) -> bool {
    c.scopes matches Some(s) && spec_resolve(s, path, is_dir)
}

pub open spec fn connector(is_last: bool) -> Seq<char> {
    if is_last {
        "└── "@
    } else {
        "├── "@
    }
}

pub open spec fn prefix_ext(is_last: bool) -> Seq<char> {
    if is_last {
        "    "@
    } else {
        "│   "@
    }
}

pub open spec fn denied_line() -> Seq<char> {
    "└── [Permission Denied]"@
}

/// What the walk does for one directory entry: the depth guard first, then
/// self-exclusion of the output file, the ignore verdict, the text-file
/// filter; a visible file contributes its tree line and its path, a visible
/// directory contributes its line and whatever its children contribute, and
/// an unlistable one a single permission-denied leaf.
pub open spec fn spec_walk_entry(
    c: WalkCfg,
    path: Seq<char>,
    e: FsEntry,
    depth: int,
    prefix: Seq<char>,
    is_last: bool,
) -> WalkOut
    decreases e, 1int,
{
    if depth_cut(c.max_depth, depth) {
        empty_out()
    } else if e.name@ == c.out_name {
        empty_out()
    } else if walk_ignored(c, path, e.tree is Dir) && !c.show_ignored {
        empty_out()
    } else {
        match e.tree {
            FsTree::File { is_text } => {
                if !is_text && !c.show_binary {
                    empty_out()
                } else {
                    WalkOut {
                        lines: seq![prefix + connector(is_last) + e.name@],
                        files: seq![path],
                    }
                }
            },
            FsTree::Dir { readable, entries } => {
                let own = prefix + connector(is_last) + e.name@ + "/"@;
                let child_prefix = prefix + prefix_ext(is_last);
                if !readable {
                    WalkOut {
                        lines: seq![own, child_prefix + denied_line()],
                        files: Seq::<Seq<char>>::empty(),
                    }
                } else {
                    let ev = entries@;
                    let order = sort_perm(ev);
                    let sub = spec_walk_children(
                        c,
                        path,
                        ev,
                        order,
                        order.len() as int,
                        depth + 1,
                        child_prefix,
                    );
                    WalkOut { lines: seq![own] + sub.lines, files: sub.files }
                }
            },
        }
    }
}

/// The fold over a directory's first `i` children in listing order.
pub open spec fn spec_walk_children(
    c: WalkCfg,
    dir_path: Seq<char>,
    entries: Seq<FsEntry>,
    order: Seq<int>,
    i: int,
    depth: int,
    prefix: Seq<char>,
) -> WalkOut
    decreases entries, 0int, i,
{
    if i <= 0 {
        empty_out()
    } else {
        let prev = spec_walk_children(c, dir_path, entries, order, i - 1, depth, prefix);
        let k = order[i - 1];
        if 0 <= k < entries.len() {
            let e = entries[k];
            let child_path = dir_path + "/"@ + e.name@;
            let r = spec_walk_entry(c, child_path, e, depth, prefix, i == order.len());
            WalkOut { lines: prev.lines + r.lines, files: prev.files + r.files }
        } else {
            prev
        }
    }
}

/// What the walk does for the traversal root: its line is always printed;
/// the root is never ignore-tested, but the output file is excluded even
/// here, and a root that is itself a file is classified like any other.
pub open spec fn spec_walk_root(c: WalkCfg, start_path: Seq<char>, root: FsTree) -> WalkOut {
    let rootline = basename_spec(start_path) + "/"@;
    if basename_spec(start_path) == c.out_name {
        WalkOut { lines: seq![rootline], files: Seq::<Seq<char>>::empty() }
    } else {
        match root {
            FsTree::File { is_text } => {
                if !is_text && !c.show_binary {
                    WalkOut { lines: seq![rootline], files: Seq::<Seq<char>>::empty() }
                } else {
                    WalkOut { lines: seq![rootline], files: seq![start_path] }
                }
            },
            FsTree::Dir { readable, entries } => {
                if !readable {
                    WalkOut {
                        lines: seq![rootline, denied_line()],
                        files: Seq::<Seq<char>>::empty(),
                    }
                } else {
                    let sub = spec_walk_children(
                        c,
                        start_path,
                        entries@,
                        sort_perm(entries@),
                        sort_perm(entries@).len() as int,
                        1,
                        Seq::<char>::empty(),
                    );
                    WalkOut { lines: seq![rootline] + sub.lines, files: sub.files }
                }
            },
        }
    }
}

// ------------------------------------------------------------------
// executable walker
// ------------------------------------------------------------------

/// The walking stage: borrows the configuration and, when ignore rules are
/// enabled, the scope hierarchy.
pub struct OutputWriter<'a> {
    pub config: &'a Config,
    pub gitignore_manager: Option<&'a HierarchicalGitignoreManager>,
}

pub open spec fn cfg_of(w: OutputWriter) -> WalkCfg {
    WalkCfg {
        max_depth: w.config.general.max_depth,
        show_ignored: w.config.general.show_ignored,
        show_binary: w.config.general.show_binary,
        out_name: w.config.output.filename@,
        scopes: match w.gitignore_manager {
            Some(m) => Some(m@),
            None => None,
        },
    }
}

impl<'a> OutputWriter<'a> {
    fn walk_entry(
        &self,
        path: &Vec<char>,
        e: &FsEntry,
        depth: u32,
        prefix: &Vec<char>,
        is_last: bool,
        lines: &mut Vec<String>,
        files: &mut Vec<String>,
    )
        ensures
            final(lines).deep_view() == old(lines).deep_view() + spec_walk_entry(
                cfg_of(*self),
                path@,
                *e,
                depth as int,
                prefix@,
                is_last,
            ).lines,
            final(files).deep_view() == old(files).deep_view() + spec_walk_entry(
                cfg_of(*self),
                path@,
                *e,
                depth as int,
                prefix@,
                is_last,
            ).files,
        decreases *e, 1int,
    {
        let ghost out = spec_walk_entry(cfg_of(*self), path@, *e, depth as int, prefix@, is_last);
        if depth == u32::MAX {
            proof {
                assert(lines.deep_view() + Seq::<Seq<char>>::empty() =~= lines.deep_view());
                assert(files.deep_view() + Seq::<Seq<char>>::empty() =~= files.deep_view());
            }
            return ;
        }
        if let Some(md) = self.config.general.max_depth {
            if depth > md {
                proof {
                    assert(lines.deep_view() + Seq::<Seq<char>>::empty() =~= lines.deep_view());
                    assert(files.deep_view() + Seq::<Seq<char>>::empty() =~= files.deep_view());
                }
                return ;
            }
        }
        let namec = chars_of(e.name.as_str());
        let outc = chars_of(self.config.output.filename.as_str());
        if eq_chars(&namec, &outc) {
            proof {
                assert(lines.deep_view() + Seq::<Seq<char>>::empty() =~= lines.deep_view());
                assert(files.deep_view() + Seq::<Seq<char>>::empty() =~= files.deep_view());
            }
            return ;
        }
        let is_dir = match &e.tree {
            FsTree::Dir { .. } => true,
            FsTree::File { .. } => false,
        };
        let pathstr = string_of(path);
        let mut is_ignored = false;
        match self.gitignore_manager {
            Some(gm) => {
                is_ignored = gm.should_ignore(pathstr.as_str(), is_dir);
            },
            None => {},
        }
        if is_ignored && !self.config.general.show_ignored {
            proof {
                assert(lines.deep_view() + Seq::<Seq<char>>::empty() =~= lines.deep_view());
                assert(files.deep_view() + Seq::<Seq<char>>::empty() =~= files.deep_view());
            }
            return ;
        }
        match &e.tree {
            FsTree::File { is_text } => {
                if !*is_text && !self.config.general.show_binary {
                    proof {
                        assert(lines.deep_view() + Seq::<Seq<char>>::empty() =~= lines.deep_view());
                        assert(files.deep_view() + Seq::<Seq<char>>::empty() =~= files.deep_view());
                    }
                    return ;
                }
                let conn = if is_last {
                    chars_of("└── ")
                } else {
                    chars_of("├── ")
                };
                let line0 = concat_chars(prefix, &conn);
                let line = concat_chars(&line0, &namec);
                lines.push(string_of(&line));
                files.push(pathstr);
                proof {
                    assert(line@ =~= prefix@ + connector(is_last) + e.name@);
                    assert(lines.deep_view() =~= old(lines).deep_view() + out.lines);
                    assert(files.deep_view() =~= old(files).deep_view() + out.files);
                }
            },
            FsTree::Dir { readable, entries } => {
                let conn = if is_last {
                    chars_of("└── ")
                } else {
                    chars_of("├── ")
                };
                let own0 = concat_chars(prefix, &conn);
                let own1 = concat_chars(&own0, &namec);
                let own = concat_chars(&own1, &chars_of("/"));
                lines.push(string_of(&own));
                let ext = if is_last {
                    chars_of("    ")
                } else {
                    chars_of("│   ")
                };
                let child_prefix = concat_chars(prefix, &ext);
                proof {
                    assert(own@ =~= prefix@ + connector(is_last) + e.name@ + "/"@);
                    assert(child_prefix@ =~= prefix@ + prefix_ext(is_last));
                }
                if !*readable {
                    let dl = concat_chars(&child_prefix, &chars_of("└── [Permission Denied]"));
                    lines.push(string_of(&dl));
                    proof {
                        assert(lines.deep_view() =~= old(lines).deep_view() + out.lines);
                        assert(files.deep_view() + Seq::<Seq<char>>::empty() =~= files.deep_view());
                    }
                    return ;
                }
                proof {
                    assert(decreases_to!(*e => e.tree));
                    assert(decreases_to!(e.tree => *entries));
                    assert(decreases_to!(*entries => entries@));
                }
                self.walk_children(path, entries, depth + 1, &child_prefix, lines, files);
                proof {
                    assert(lines.deep_view() =~= old(lines).deep_view() + out.lines);
                    assert(files.deep_view() =~= old(files).deep_view() + out.files);
                }
            },
        }
    }

    fn walk_children(
        &self,
        dir_path: &Vec<char>,
        entries: &Vec<FsEntry>,
        depth: u32,
        prefix: &Vec<char>,
        lines: &mut Vec<String>,
        files: &mut Vec<String>,
    )
        ensures
            final(lines).deep_view() == old(lines).deep_view() + spec_walk_children(
                cfg_of(*self),
                dir_path@,
                entries@,
                sort_perm(entries@),
                sort_perm(entries@).len() as int,
                depth as int,
                prefix@,
            ).lines,
            final(files).deep_view() == old(files).deep_view() + spec_walk_children(
                cfg_of(*self),
                dir_path@,
                entries@,
                sort_perm(entries@),
                sort_perm(entries@).len() as int,
                depth as int,
                prefix@,
            ).files,
        decreases entries@, 0int,
    {
        let idx = sort_indices(entries);
        let ghost order: Seq<int> = sort_perm(entries@);
        let ghost lines0: Seq<Seq<char>> = lines.deep_view();
        let ghost files0: Seq<Seq<char>> = files.deep_view();
        proof {
            assert(lines0 + Seq::<Seq<char>>::empty() =~= lines0);
            assert(files0 + Seq::<Seq<char>>::empty() =~= files0);
        }
        let mut i: usize = 0;
        while i < idx.len()
            invariant
                0 <= i <= idx@.len(),
                idx@.map_values(|u: usize| u as int) == order,
                order == sort_perm(entries@),
                idx@.len() == entries@.len(),
                forall|m: int| 0 <= m < idx@.len() ==> #[trigger] idx@[m] < entries@.len(),
                lines.deep_view() == lines0 + spec_walk_children(
                    cfg_of(*self),
                    dir_path@,
                    entries@,
                    order,
                    i as int,
                    depth as int,
                    prefix@,
                ).lines,
                files.deep_view() == files0 + spec_walk_children(
                    cfg_of(*self),
                    dir_path@,
                    entries@,
                    order,
                    i as int,
                    depth as int,
                    prefix@,
                ).files,
            decreases idx.len() - i,
        {
            let k = idx[i];
            let child = &entries[k];
            let cname = chars_of(child.name.as_str());
            let cpath0 = concat_chars(dir_path, &chars_of("/"));
            let cpath = concat_chars(&cpath0, &cname);
            let is_last = i == idx.len() - 1;
            proof {
                assert(order[i as int] == idx@[i as int] as int);
                assert(entries@[k as int] == entries[k as int]);
                assert(cpath@ =~= dir_path@ + "/"@ + entries@[k as int].name@);
                assert(decreases_to!(entries@ => entries@[k as int]));
            }
            let ghost pre_lines: Seq<Seq<char>> = lines.deep_view();
            let ghost pre_files: Seq<Seq<char>> = files.deep_view();
            self.walk_entry(&cpath, child, depth, prefix, is_last, lines, files);
            proof {
                let sub = spec_walk_entry(
                    cfg_of(*self),
                    cpath@,
                    entries@[k as int],
                    depth as int,
                    prefix@,
                    is_last,
                );
                assert((is_last) == (i as int + 1 == order.len()));
                assert(lines.deep_view() =~= lines0 + spec_walk_children(
                    cfg_of(*self),
                    dir_path@,
                    entries@,
                    order,
                    i as int + 1,
                    depth as int,
                    prefix@,
                ).lines);
                assert(files.deep_view() =~= files0 + spec_walk_children(
                    cfg_of(*self),
                    dir_path@,
                    entries@,
                    order,
                    i as int + 1,
                    depth as int,
                    prefix@,
                ).files);
            }
            i += 1;
        }
    }

    /// Walks the tree below `start_path`, appending one line per visible
    /// entry and returning the rendered lines together with the kept file
    /// paths, in rendering order.
    pub fn write_tree_and_get_files(&self, start_path: &str, root: &FsTree) -> (r: (
        Vec<String>,
        Vec<String>,
    ))
        ensures
            r.0.deep_view() == spec_walk_root(cfg_of(*self), start_path@, *root).lines,
            r.1.deep_view() == spec_walk_root(cfg_of(*self), start_path@, *root).files,
    {
        let ghost out = spec_walk_root(cfg_of(*self), start_path@, *root);
        let mut lines: Vec<String> = Vec::new();
        let mut files: Vec<String> = Vec::new();
        let startc = chars_of(start_path);
        let base = basename_exec(&startc);
        let rootline = concat_chars(&base, &chars_of("/"));
        lines.push(string_of(&rootline));
        proof {
            assert(rootline@ =~= basename_spec(start_path@) + "/"@);
        }
        let outc = chars_of(self.config.output.filename.as_str());
        if eq_chars(&base, &outc) {
            proof {
                assert(lines.deep_view() =~= out.lines);
                assert(files.deep_view() =~= out.files);
            }
            return (lines, files);
        }
        match root {
            FsTree::File { is_text } => {
                if !*is_text && !self.config.general.show_binary {
                    proof {
                        assert(lines.deep_view() =~= out.lines);
                        assert(files.deep_view() =~= out.files);
                    }
                    (lines, files)
                } else {
                    files.push(start_path.to_owned());
                    proof {
                        assert(lines.deep_view() =~= out.lines);
                        assert(files.deep_view() =~= out.files);
                    }
                    (lines, files)
                }
            },
            FsTree::Dir { readable, entries } => {
                if !*readable {
                    lines.push("└── [Permission Denied]".to_owned());
                    proof {
                        assert(lines.deep_view() =~= out.lines);
                        assert(files.deep_view() =~= out.files);
                    }
                    return (lines, files);
                }
                let empty_prefix: Vec<char> = Vec::new();
                self.walk_children(&startc, entries, 1, &empty_prefix, &mut lines, &mut files);
                proof {
                    assert(empty_prefix@ =~= Seq::<char>::empty());
                    assert(lines.deep_view() =~= out.lines);
                    assert(files.deep_view() =~= out.files);
                }
                (lines, files)
            },
        }
    }
}

// ------------------------------------------------------------------
// generator: configuration plus hierarchy, and the final name filters
// ------------------------------------------------------------------

pub open spec fn spec_name_matches_any(pats: Seq<Seq<char>>, name: Seq<char>) -> bool {
    exists|i: int| 0 <= i < pats.len() && glob_ok(pats[i]) && glob_match(pats[i], name)
}

/// Which file paths the include/exclude name filters keep: judged on the
/// file's base name; an uncompilable filter pattern matches nothing.
pub open spec fn spec_keep_file(inc: Seq<Seq<char>>, exc: Seq<Seq<char>>, f: Seq<char>) -> bool {
    (inc.len() == 0 || spec_name_matches_any(inc, basename_spec(f))) && !(exc.len() > 0
        && spec_name_matches_any(exc, basename_spec(f)))
}

pub open spec fn spec_filter_files(
    files: Seq<Seq<char>>,
    inc: Seq<Seq<char>>,
    exc: Seq<Seq<char>>,
) -> Seq<Seq<char>>
    decreases files.len(),
{
    if files.len() == 0 {
        Seq::<Seq<char>>::empty()
    } else {
        let rest = spec_filter_files(files.drop_last(), inc, exc);
        if spec_keep_file(inc, exc, files.last()) {
            rest.push(files.last())
        } else {
            rest
        }
    }
}

fn name_matches_any(pats: &Vec<String>, name: &Vec<char>) -> (r: bool)
    ensures
        r == spec_name_matches_any(pats.deep_view(), name@),
{
    let mut i: usize = 0;
    while i < pats.len()
        invariant
            0 <= i <= pats@.len(),
            forall|j: int|
                0 <= j < i ==> !(glob_ok(#[trigger] pats.deep_view()[j]) && glob_match(
                    pats.deep_view()[j],
                    name@,
                )),
        decreases pats.len() - i,
    {
        let pc = chars_of(pats[i].as_str());
        proof {
            assert(pc@ == pats.deep_view()[i as int]);
        }
        match try_glob_match(&pc, name) {
            Some(true) => {
                return true;
            },
            _ => {},
        }
        i += 1;
    }
    false
}

/// The whole run's state: the resolved configuration and, when enabled, the
/// scope hierarchy built from the discovered ignore files.
pub struct ProjectTreeGenerator {
    pub config: Config,
    pub gitignore_manager: Option<HierarchicalGitignoreManager>,
}

impl ProjectTreeGenerator {
    /// Couples the configuration with the hierarchy built from the
    /// discovered ignore files, or with no hierarchy at all when ignore
    /// handling is switched off.
    pub fn new(config: Config, ignore_files: &Vec<IgnoreFileData>) -> (r: ProjectTreeGenerator)
        ensures
            r.config == config,
            config.general.use_gitignore ==> (r.gitignore_manager matches Some(m) && m@
                == ignore_files@.map_values(|f: IgnoreFileData| spec_scope_of(f@))),
            !config.general.use_gitignore ==> r.gitignore_manager is None,
    {
        let gitignore_manager = if config.general.use_gitignore {
            Some(HierarchicalGitignoreManager::new(config.general.path.as_str(), ignore_files))
        } else {
            None
        };
        ProjectTreeGenerator { config, gitignore_manager }
    }

    /// Applies the include filters and then the exclude filters to the file
    /// list, keeping rendering order.
    pub fn filter_file_list(&self, file_list: Vec<String>) -> (r: Vec<String>)
        ensures
            r.deep_view() == spec_filter_files(
                file_list.deep_view(),
                self.config.filters.include_patterns.deep_view(),
                self.config.filters.exclude_patterns.deep_view(),
            ),
    {
        let ghost inc: Seq<Seq<char>> = self.config.filters.include_patterns.deep_view();
        let ghost exc: Seq<Seq<char>> = self.config.filters.exclude_patterns.deep_view();
        let mut r: Vec<String> = Vec::new();
        proof {
            assert(file_list.deep_view().take(0int) =~= Seq::<Seq<char>>::empty());
        }
        let mut i: usize = 0;
        while i < file_list.len()
            invariant
                0 <= i <= file_list@.len(),
                inc == self.config.filters.include_patterns.deep_view(),
                exc == self.config.filters.exclude_patterns.deep_view(),
                r.deep_view() == spec_filter_files(
                    file_list.deep_view().take(i as int),
                    inc,
                    exc,
                ),
            decreases file_list.len() - i,
        {
            proof {
                assert(file_list.deep_view().take(i + 1 as int).drop_last()
                    =~= file_list.deep_view().take(i as int));
                assert(file_list.deep_view()[i as int] == file_list@[i as int]@);
            }
            let fc = chars_of(file_list[i].as_str());
            let name = basename_exec(&fc);
            let inc_ok = if self.config.filters.include_patterns.len() == 0 {
                true
            } else {
                name_matches_any(&self.config.filters.include_patterns, &name)
            };
            let exc_hit = if self.config.filters.exclude_patterns.len() == 0 {
                false
            } else {
                name_matches_any(&self.config.filters.exclude_patterns, &name)
            };
            let ghost pre: Seq<Seq<char>> = r.deep_view();
            if inc_ok && !exc_hit {
                r.push(file_list[i].clone());
                proof {
                    assert(r.deep_view() =~= pre.push(file_list.deep_view()[i as int]));
                }
            }
            i += 1;
        }
        proof {
            assert(file_list.deep_view().take(file_list@.len() as int) =~= file_list.deep_view());
        }
        r
    }
}

// ------------------------------------------------------------------
// laws of the walker
// ------------------------------------------------------------------

proof fn lemma_walk_children_cut(
    c: WalkCfg,
    dir_path: Seq<char>,
    entries: Seq<FsEntry>,
    order: Seq<int>,
    i: int,
    depth: int,
    prefix: Seq<char>,
)
    requires
        depth_cut(c.max_depth, depth),
    ensures
        spec_walk_children(c, dir_path, entries, order, i, depth, prefix).lines
            =~= Seq::<Seq<char>>::empty(),
        spec_walk_children(c, dir_path, entries, order, i, depth, prefix).files
            =~= Seq::<Seq<char>>::empty(),
    decreases i,
{
    if i > 0 {
        lemma_walk_children_cut(c, dir_path, entries, order, i - 1, depth, prefix);
        let prev = spec_walk_children(c, dir_path, entries, order, i - 1, depth, prefix);
        let k = order[i - 1];
        if 0 <= k < entries.len() {
            let e = entries[k];
            let r = spec_walk_entry(
                c,
                dir_path + "/"@ + e.name@,
                e,
                depth,
                prefix,
                i == order.len(),
            );
            assert(r == empty_out());
            assert(prev.lines + r.lines =~= Seq::<Seq<char>>::empty());
            assert(prev.files + r.files =~= Seq::<Seq<char>>::empty());
        }
    }
}

/// With a configured maximum depth of zero, a walk over a readable directory
/// emits the root line only and returns no files, whatever the tree holds.
pub proof fn lemma_depth_zero_walk(c: WalkCfg, start_path: Seq<char>, root: FsTree)
    requires
        c.max_depth == Some(0u32),
        root matches FsTree::Dir { readable: true, .. },
    ensures
        spec_walk_root(c, start_path, root).lines =~= seq![basename_spec(start_path) + "/"@],
        spec_walk_root(c, start_path, root).files =~= Seq::<Seq<char>>::empty(),
{
    if basename_spec(start_path) == c.out_name {
    } else {
        match root {
            FsTree::Dir { readable, entries } => {
                lemma_walk_children_cut(
                    c,
                    start_path,
                    entries@,
                    sort_perm(entries@),
                    sort_perm(entries@).len() as int,
                    1,
                    Seq::<char>::empty(),
                );
                assert(seq![basename_spec(start_path) + "/"@] + Seq::<Seq<char>>::empty()
                    =~= seq![basename_spec(start_path) + "/"@]);
            },
            FsTree::File { .. } => {},
        }
    }
}

} // verus!
