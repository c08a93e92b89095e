//! The hierarchical ignore-rule engine: one compiled pattern, one directory
//! scope holding an ordered pattern list, and one manager that folds the
//! verdicts of every scope on the way from the root down to a path.

use vstd::prelude::*;

use crate::chars::{
    chars_of, collapse_stars, collapse_stars_exec, escape_meta, escape_meta_exec,
    lemma_collapse_no_star, lemma_parent_shorter, parent_dir, parent_dir_exec, rel_under,
    rel_under_exec, slice_range, split_slash, split_slash_spec, string_of, trim_chars, trim_spec,
    unescape_spaces, unescape_spaces_exec,
};
use crate::globx::{glob_match, glob_ok, try_glob_match};

verus! {

// ------------------------------------------------------------------
// patterns
// ------------------------------------------------------------------

/// One compiled ignore rule.
pub struct GitPattern {
    pub pattern: String,
    pub is_negative: bool,
    pub is_directory_only: bool,
    pub is_absolute: bool,
}

/// Mathematical image of a compiled rule.
#[verifier::ext_equal]
pub struct PatV {
    pub text: Seq<char>,
    pub negative: bool,
    pub directory_only: bool,
    pub anchored: bool,
}

impl View for GitPattern {
    type V = PatV;

    open spec fn view(&self) -> PatV {
        PatV {
            text: self.pattern@,
            negative: self.is_negative,
            directory_only: self.is_directory_only,
            anchored: self.is_absolute,
        }
    }
}

/// Compilation of one trimmed rule line: un-escape `\ `, strip the `!`
/// negation marker, the trailing `/` directory restriction and the leading
/// `/` anchor, then force `?`, `[` and `]` to match literally.
pub open spec fn spec_parse_pattern(line: Seq<char>) -> PatV {
    let l0 = unescape_spaces(line);
    let neg = l0.len() > 0 && l0[0] == '!';
    let l1 = if neg {
        l0.skip(1)
    } else {
        l0
    };
    let dironly = l1.len() > 0 && l1[l1.len() - 1] == '/';
    let l2 = if dironly {
        l1.drop_last()
    } else {
        l1
    };
    let anch = l2.len() > 0 && l2[0] == '/';
    let l3 = if anch {
        l2.skip(1)
    } else {
        l2
    };
    PatV { text: escape_meta(l3), negative: neg, directory_only: dironly, anchored: anch }
}

fn parse_pattern(line: &Vec<char>) -> (r: Option<GitPattern>)
    ensures
        r matches Some(p) && p@ == spec_parse_pattern(line@),
{
    let l0 = unescape_spaces_exec(line);
    let is_negative = l0.len() > 0 && l0[0] == '!';
    let l1 = if is_negative {
        let t = slice_range(&l0, 1, l0.len());
        proof {
            assert(t@ =~= l0@.skip(1));
        }
        t
    } else {
        l0
    };
    let is_directory_only = l1.len() > 0 && l1[l1.len() - 1] == '/';
    let l2 = if is_directory_only {
        let t = slice_range(&l1, 0, l1.len() - 1);
        proof {
            assert(t@ =~= l1@.drop_last());
        }
        t
    } else {
        l1
    };
    let is_absolute = l2.len() > 0 && l2[0] == '/';
    let l3 = if is_absolute {
        let t = slice_range(&l2, 1, l2.len());
        proof {
            assert(t@ =~= l2@.skip(1));
        }
        t
    } else {
        l2
    };
    let esc = escape_meta_exec(&l3);
    Some(
        GitPattern {
            pattern: string_of(&esc),
            is_negative,
            is_directory_only,
            is_absolute,
        },
    )
}

// ------------------------------------------------------------------
// pattern matching
// ------------------------------------------------------------------

pub open spec fn star_star() -> Seq<char> {
    seq!['*', '*']
}

/// The match test of one pattern text against one rendered relative path:
/// a bare `**` matches everything, any other `**` collapses to `*`; anchored
/// patterns are tried against the whole path and against the path with one
/// extra leading segment, unanchored patterns against every path segment.
pub open spec fn spec_matches_pattern(path: Seq<char>, pattern: Seq<char>, anchored: bool) -> bool {
    if pattern == star_star() {
        true
    } else {
        let c = collapse_stars(pattern);
        if anchored {
            if !glob_ok(c) {
                false
            } else if glob_match(c, path) {
                true
            } else {
                let alt = seq!['*', '/'] + c;
                glob_ok(alt) && glob_match(alt, path)
            }
        } else {
            glob_ok(c) && exists|k: int|
                0 <= k < split_slash_spec(path).len() && glob_match(c, split_slash_spec(path)[k])
        }
    }
}

fn matches_pattern(path: &Vec<char>, pattern: &Vec<char>, is_absolute: bool) -> (r: bool)
    ensures
        r == spec_matches_pattern(path@, pattern@, is_absolute),
{
    if pattern.len() == 2 && pattern[0] == '*' && pattern[1] == '*' {
        proof {
            assert(pattern@ =~= star_star());
        }
        return true;
    }
    proof {
        assert(pattern@ != star_star());
    }
    let c = collapse_stars_exec(pattern);
    if is_absolute {
        match try_glob_match(&c, path) {
            None => false,
            Some(true) => true,
            Some(false) => {
                let mut head: Vec<char> = Vec::new();
                head.push('*');
                head.push('/');
                let alt = crate::chars::concat_chars(&head, &c);
                proof {
                    assert(head@ =~= seq!['*', '/']);
                }
                match try_glob_match(&alt, path) {
                    None => false,
                    Some(b) => b,
                }
            },
        }
    } else {
        let segs = split_slash(path);
        let ghost segv: Seq<Seq<char>> = segs@.map_values(|v: Vec<char>| v@);
        let mut k: usize = 0;
        while k < segs.len()
            invariant
                0 <= k <= segs@.len(),
                segv == segs@.map_values(|v: Vec<char>| v@),
                segv == split_slash_spec(path@),
                c@ == collapse_stars(pattern@),
                pattern@ != star_star(),
                !is_absolute,
                forall|j: int| 0 <= j < k ==> !(glob_ok(c@) && glob_match(c@, segv[j])),
            decreases segs.len() - k,
        {
            match try_glob_match(&c, &segs[k]) {
                None => {
                    return false;
                },
                Some(true) => {
                    proof {
                        assert(segv[k as int] == segs@[k as int]@);
                        assert(glob_match(c@, split_slash_spec(path@)[k as int]));
                        assert(exists|j: int|
                            0 <= j < split_slash_spec(path@).len() && glob_match(
                                c@,
                                split_slash_spec(path@)[j],
                            ));
                    }
                    return true;
                },
                Some(false) => {},
            }
            k += 1;
        }
        false
    }
}

// ------------------------------------------------------------------
// one directory scope
// ------------------------------------------------------------------

/// The patterns contributed by one ignore file, owned by its directory.
pub struct GitignoreParser {
    pub patterns: Vec<GitPattern>,
    pub gitignore_dir: String,
}

/// Mathematical image of a scope.
#[verifier::ext_equal]
pub struct ScopeV {
    pub dir: Seq<char>,
    pub patterns: Seq<PatV>,
}

impl View for GitignoreParser {
    type V = ScopeV;

    open spec fn view(&self) -> ScopeV {
        ScopeV {
            dir: self.gitignore_dir@,
            patterns: self.patterns@.map_values(|p: GitPattern| p@),
        }
    }
}

pub open spec fn git_dir_chars() -> Seq<char> {
    seq!['.', 'g', 'i', 't']
}

pub open spec fn gitattributes_chars() -> Seq<char> {
    seq!['.', 'g', 'i', 't', 'a', 't', 't', 'r', 'i', 'b', 'u', 't', 'e', 's']
}

pub open spec fn gitignore_chars() -> Seq<char> {
    seq!['.', 'g', 'i', 't', 'i', 'g', 'n', 'o', 'r', 'e']
}

/// The engine's built-in rules: the version-control metadata directory and
/// its two marker files, prepended to every scope.
pub open spec fn builtin_patterns() -> Seq<PatV> {
    seq![
        PatV { text: git_dir_chars(), negative: false, directory_only: true, anchored: false },
        PatV {
            text: gitattributes_chars(),
            negative: false,
            directory_only: false,
            anchored: false,
        },
        PatV { text: gitignore_chars(), negative: false, directory_only: false, anchored: false },
    ]
}

/// The patterns compiled from the lines of one ignore file, in file order,
/// skipping blank lines and `#` comments.
pub open spec fn spec_compile_lines(lines: Seq<Seq<char>>) -> Seq<PatV>
    decreases lines.len(),
{
    if lines.len() == 0 {
        Seq::<PatV>::empty()
    } else {
        let rest = spec_compile_lines(lines.drop_last());
        let t = trim_spec(lines.last());
        if t.len() == 0 || t[0] == '#' {
            rest
        } else {
            rest.push(spec_parse_pattern(t))
        }
    }
}

impl GitignoreParser {
    /// Builds the scope owned by `gitignore_dir` from the given ignore-file
    /// lines; a missing or unreadable file is passed as no lines at all and
    /// still contributes the built-in patterns.
    pub fn new(gitignore_dir: &str, lines: &Vec<String>) -> (r: GitignoreParser)
        ensures
            r@.dir == gitignore_dir@,
            r@.patterns == builtin_patterns() + spec_compile_lines(lines.deep_view()),
    {
        let mut patterns: Vec<GitPattern> = Vec::new();
        patterns.push(
            GitPattern {
                pattern: ".git".to_owned(),
                is_negative: false,
                is_directory_only: true,
                is_absolute: false,
            },
        );
        patterns.push(
            GitPattern {
                pattern: ".gitattributes".to_owned(),
                is_negative: false,
                is_directory_only: false,
                is_absolute: false,
            },
        );
        patterns.push(
            GitPattern {
                pattern: ".gitignore".to_owned(),
                is_negative: false,
                is_directory_only: false,
                is_absolute: false,
            },
        );
        proof {
            reveal_strlit(".git");
            reveal_strlit(".gitattributes");
            reveal_strlit(".gitignore");
            assert(".git"@ =~= git_dir_chars());
            assert(".gitattributes"@ =~= gitattributes_chars());
            assert(".gitignore"@ =~= gitignore_chars());
            assert(patterns@.map_values(|p: GitPattern| p@) =~= builtin_patterns());
            assert(lines.deep_view().take(0int) =~= Seq::<Seq<char>>::empty());
            assert(builtin_patterns() + Seq::<PatV>::empty() =~= builtin_patterns());
        }
        let mut i: usize = 0;
        while i < lines.len()
            invariant
                0 <= i <= lines@.len(),
                patterns@.map_values(|p: GitPattern| p@) == builtin_patterns()
                    + spec_compile_lines(lines.deep_view().take(i as int)),
            decreases lines.len() - i,
        {
            let lc = chars_of(lines[i].as_str());
            let t = trim_chars(&lc);
            proof {
                assert(lines.deep_view().take(i + 1 as int).drop_last() =~= lines.deep_view().take(
                    i as int,
                ));
                assert(lines.deep_view()[i as int] == lines@[i as int]@);
            }
            if !(t.len() == 0 || t[0] == '#') {
                let ghost pre: Seq<PatV> = patterns@.map_values(|p: GitPattern| p@);
                match parse_pattern(&t) {
                    Some(p) => {
                        patterns.push(p);
                        proof {
                            assert(patterns@.map_values(|p: GitPattern| p@) =~= pre.push(
                                spec_parse_pattern(t@),
                            ));
                        }
                    },
                    None => {},
                }
            }
            i += 1;
        }
        proof {
            assert(lines.deep_view().take(lines@.len() as int) =~= lines.deep_view());
        }
        GitignoreParser { patterns, gitignore_dir: gitignore_dir.to_owned() }
    }
}

/// A relative path that climbs out of the scope (a leading `..` segment).
pub open spec fn rel_escapes(rel: Seq<char>) -> bool {
    rel.len() >= 2 && rel[0] == '.' && rel[1] == '.' && (rel.len() == 2 || rel[2] == '/')
}

/// The scope-local fold: patterns in file order, last match wins, tracking
/// whether the last matching pattern was a negation.
pub open spec fn fold_patterns(ps: Seq<PatV>, mp: Seq<char>, is_dir: bool, inherited: bool) -> (
    bool,
    bool,
)
    decreases ps.len(),
{
    if ps.len() == 0 {
        (inherited, false)
    } else {
        let prev = fold_patterns(ps.drop_last(), mp, is_dir, inherited);
        let p = ps.last();
        if p.directory_only && !is_dir {
            prev
        } else if spec_matches_pattern(mp, p.text, p.anchored) {
            if p.negative {
                (false, true)
            } else {
                (true, false)
            }
        } else {
            prev
        }
    }
}

/// One scope's verdict for a path, given the verdict inherited from the
/// scopes above it: the scope answers only for paths under its directory,
/// and a scope whose last matching pattern is a negation answers
/// "not ignored" whatever the fold accumulated.
pub open spec fn spec_scope_ignore(
    s: ScopeV,
    path: Seq<char>,
    is_dir: bool,
    inherited: bool,
) -> bool {
    if s.patterns.len() == 0 {
        inherited
    } else {
        match rel_under(path, s.dir) {
            Some(rel) => {
                if rel_escapes(rel) {
                    inherited
                } else {
                    let mp = if is_dir {
                        rel.push('/')
                    } else {
                        rel
                    };
                    let v = fold_patterns(s.patterns, mp, is_dir, inherited);
                    v.0 && !v.1
                }
            },
            None => inherited,
        }
    }
}

impl GitignoreParser {
    /// Whether this scope leaves the path ignored, starting from the
    /// inherited verdict `parent_ignored`.
    pub fn should_ignore(&self, path: &str, is_directory: bool, parent_ignored: bool) -> (r: bool)
        ensures
            r == spec_scope_ignore(self@, path@, is_directory, parent_ignored),
    {
        if self.patterns.len() == 0 {
            return parent_ignored;
        }
        let pathc = chars_of(path);
        let dirc = chars_of(self.gitignore_dir.as_str());
        let rel = match rel_under_exec(&pathc, &dirc) {
            Some(r) => r,
            None => {
                return parent_ignored;
            },
        };
        if rel.len() >= 2 && rel[0] == '.' && rel[1] == '.' && (rel.len() == 2 || rel[2] == '/') {
            return parent_ignored;
        }
        let mut mp = rel;
        if is_directory {
            mp.push('/');
        }
        let ghost mpv: Seq<char> = mp@;
        let mut result = parent_ignored;
        let mut last_negative = false;
        proof {
            assert(self@.patterns.take(0int) =~= Seq::<PatV>::empty());
        }
        let mut i: usize = 0;
        while i < self.patterns.len()
            invariant
                0 <= i <= self.patterns@.len(),
                mpv == mp@,
                (result, last_negative) == fold_patterns(
                    self@.patterns.take(i as int),
                    mpv,
                    is_directory,
                    parent_ignored,
                ),
            decreases self.patterns.len() - i,
        {
            proof {
                assert(self@.patterns.take(i + 1 as int).drop_last() =~= self@.patterns.take(
                    i as int,
                ));
                assert(self@.patterns[i as int] == self.patterns@[i as int]@);
            }
            let p = &self.patterns[i];
            if !(p.is_directory_only && !is_directory) {
                let pc = chars_of(p.pattern.as_str());
                if matches_pattern(&mp, &pc, p.is_absolute) {
                    if p.is_negative {
                        result = false;
                        last_negative = true;
                    } else {
                        result = true;
                        last_negative = false;
                    }
                }
            }
            i += 1;
        }
        proof {
            assert(self@.patterns.take(self.patterns@.len() as int) =~= self@.patterns);
        }
        result && !last_negative
    }
}

// ------------------------------------------------------------------
// the hierarchy of scopes
// ------------------------------------------------------------------

/// The lines of one discovered ignore file, keyed by its owning directory.
pub struct IgnoreFileData {
    pub dir: String,
    pub lines: Vec<String>,
}

/// Mathematical image of one discovered ignore file.
#[verifier::ext_equal]
pub struct IgnoreFileV {
    pub dir: Seq<char>,
    pub lines: Seq<Seq<char>>,
}

impl View for IgnoreFileData {
    type V = IgnoreFileV;

    open spec fn view(&self) -> IgnoreFileV {
        IgnoreFileV { dir: self.dir@, lines: self.lines.deep_view() }
    }
}

/// The scope a discovered ignore file contributes.
pub open spec fn spec_scope_of(f: IgnoreFileV) -> ScopeV {
    ScopeV { dir: f.dir, patterns: builtin_patterns() + spec_compile_lines(f.lines) }
}

/// All scopes under a traversal root, in discovery order.
pub struct HierarchicalGitignoreManager {
    pub start_path: String,
    pub parsers: Vec<GitignoreParser>,
}

impl View for HierarchicalGitignoreManager {
    type V = Seq<ScopeV>;

    open spec fn view(&self) -> Seq<ScopeV> {
        self.parsers@.map_values(|p: GitignoreParser| p@)
    }
}

/// The scopes whose owning directory is exactly `dir`, in discovery order.
pub open spec fn scopes_at(scopes: Seq<ScopeV>, dir: Seq<char>) -> Seq<ScopeV>
    decreases scopes.len(),
{
    if scopes.len() == 0 {
        Seq::<ScopeV>::empty()
    } else {
        let prev = scopes_at(scopes.drop_last(), dir);
        if scopes.last().dir == dir {
            prev.push(scopes.last())
        } else {
            prev
        }
    }
}

/// The scopes on the chain from the filesystem root down to directory `d`,
/// shallowest owning directory first: the ancestors' directory strings
/// strictly grow along the chain, so this order is exactly ascending order
/// of the owning directory's length.
pub open spec fn relevant_scopes(scopes: Seq<ScopeV>, d: Seq<char>) -> Seq<ScopeV>
    decreases d.len(),
    via relevant_scopes_decreases
{
    if d.len() == 0 {
        scopes_at(scopes, d)
    } else {
        relevant_scopes(scopes, parent_dir(d)) + scopes_at(scopes, d)
    }
}

#[via_fn]
proof fn relevant_scopes_decreases(scopes: Seq<ScopeV>, d: Seq<char>) {
    lemma_parent_shorter(d);
}

/// The cross-scope fold: shallow scopes first; a deeper scope that flips an
/// inherited "ignored" back to "not ignored" raises the override flag.
pub open spec fn fold_scopes(scopes: Seq<ScopeV>, path: Seq<char>, is_dir: bool) -> (bool, bool)
    decreases scopes.len(),
{
    if scopes.len() == 0 {
        (false, false)
    } else {
        let prev = fold_scopes(scopes.drop_last(), path, is_dir);
        let cur = spec_scope_ignore(scopes.last(), path, is_dir, prev.0);
        if prev.0 && !cur {
            (false, true)
        } else {
            (cur, false)
        }
    }
}

/// The directory whose scope chain governs a path.
pub open spec fn spec_containing_dir(path: Seq<char>, is_dir: bool) -> Seq<char> {
    if is_dir {
        path
    } else {
        parent_dir(path)
    }
}

/// The final verdict for a path: fold every scope on the chain to its
/// containing directory, shallowest first; no scope anywhere means not
/// ignored, and an override in the very last step wins.
pub open spec fn spec_resolve(scopes: Seq<ScopeV>, path: Seq<char>, is_dir: bool) -> bool {
    let rel = relevant_scopes(scopes, spec_containing_dir(path, is_dir));
    if rel.len() == 0 {
        false
    } else {
        let v = fold_scopes(rel, path, is_dir);
        v.0 && !v.1
    }
}

/// The chain of directories from `d` up to the root, starting at `d`.
pub open spec fn up_chain(d: Seq<char>) -> Seq<Seq<char>>
    decreases d.len(),
    via up_chain_decreases
{
    if d.len() == 0 {
        seq![d]
    } else {
        seq![d] + up_chain(parent_dir(d))
    }
}

#[via_fn]
proof fn up_chain_decreases(d: Seq<char>) {
    lemma_parent_shorter(d);
}

proof fn lemma_up_chain_props(d: Seq<char>)
    ensures
        up_chain(d).len() >= 1,
        up_chain(d)[0] == d,
        up_chain(d)[up_chain(d).len() - 1] =~= Seq::<char>::empty(),
        forall|k: int|
            0 <= k < up_chain(d).len() - 1 ==> up_chain(d)[k + 1] == parent_dir(
                #[trigger] up_chain(d)[k],
            ),
        forall|k: int| 0 <= k < up_chain(d).len() - 1 ==> (#[trigger] up_chain(d)[k]).len() > 0,
    decreases d.len(),
{
    lemma_parent_shorter(d);
    if d.len() == 0 {
    } else {
        lemma_up_chain_props(parent_dir(d));
        let c = up_chain(d);
        let pc = up_chain(parent_dir(d));
        assert(c.len() == pc.len() + 1);
        assert forall|k: int| 0 <= k < c.len() - 1 implies c[k + 1] == parent_dir(
            #[trigger] c[k],
        ) && c[k].len() > 0 by {
            if k == 0 {
                assert(c[1] == pc[0]);
            } else {
                assert(c[k] == pc[k - 1]);
                assert(c[k + 1] == pc[k]);
            }
        }
    }
}

impl HierarchicalGitignoreManager {
    /// Builds the hierarchy from the discovered ignore files, one scope per
    /// file, in discovery order.
    pub fn new(start_path: &str, ignore_files: &Vec<IgnoreFileData>) -> (r:
        HierarchicalGitignoreManager)
        ensures
            r@ == ignore_files@.map_values(|f: IgnoreFileData| spec_scope_of(f@)),
            r.start_path@ == start_path@,
    {
        let mut parsers: Vec<GitignoreParser> = Vec::new();
        proof {
            assert(parsers@.map_values(|p: GitignoreParser| p@) =~= ignore_files@.map_values(
                |f: IgnoreFileData| spec_scope_of(f@),
            ).take(0int));
        }
        let mut i: usize = 0;
        while i < ignore_files.len()
            invariant
                0 <= i <= ignore_files@.len(),
                parsers@.map_values(|p: GitignoreParser| p@) == ignore_files@.map_values(
                    |f: IgnoreFileData| spec_scope_of(f@),
                ).take(i as int),
            decreases ignore_files.len() - i,
        {
            let ghost pre: Seq<ScopeV> = parsers@.map_values(|p: GitignoreParser| p@);
            let f = &ignore_files[i];
            let parser = GitignoreParser::new(f.dir.as_str(), &f.lines);
            proof {
                assert(parser@ =~= spec_scope_of(ignore_files@[i as int]@));
            }
            parsers.push(parser);
            proof {
                assert(parsers@.map_values(|p: GitignoreParser| p@) =~= pre.push(
                    spec_scope_of(ignore_files@[i as int]@),
                ));
                assert(ignore_files@.map_values(|f: IgnoreFileData| spec_scope_of(f@)).take(
                    i + 1 as int,
                ) =~= ignore_files@.map_values(|f: IgnoreFileData| spec_scope_of(f@)).take(
                    i as int,
                ).push(spec_scope_of(ignore_files@[i as int]@)));
            }
            i += 1;
        }
        proof {
            assert(ignore_files@.map_values(|f: IgnoreFileData| spec_scope_of(f@)).take(
                ignore_files@.len() as int,
            ) =~= ignore_files@.map_values(|f: IgnoreFileData| spec_scope_of(f@)));
        }
        HierarchicalGitignoreManager { start_path: start_path.to_owned(), parsers }
    }

    /// The scopes that govern `path`, shallowest owning directory first:
    /// every scope found at a directory on the chain from the filesystem
    /// root down to the path's containing directory, which is ascending
    /// order of the owning directory's length.
    pub fn find_relevant_parsers<'a>(&'a self, path: &str, is_directory: bool) -> (r: Vec<
        &'a GitignoreParser,
    >)
        ensures
            r@.map_values(|p: &GitignoreParser| p@) == relevant_scopes(
                self@,
                spec_containing_dir(path@, is_directory),
            ),
    {
        let pathc = chars_of(path);
        let d0 = if is_directory {
            pathc
        } else {
            parent_dir_exec(&pathc)
        };
        let ghost d0v: Seq<char> = d0@;
        let mut chain: Vec<Vec<char>> = Vec::new();
        let mut cur = d0;
        proof {
            assert(chain@.map_values(|v: Vec<char>| v@) + up_chain(cur@) =~= up_chain(d0v));
        }
        while cur.len() > 0
            invariant
                chain@.map_values(|v: Vec<char>| v@) + up_chain(cur@) == up_chain(d0v),
            decreases cur.len(),
        {
            let ghost prev: Seq<Seq<char>> = chain@.map_values(|v: Vec<char>| v@);
            let ghost curv: Seq<char> = cur@;
            let next = parent_dir_exec(&cur);
            chain.push(cur);
            proof {
                lemma_parent_shorter(curv);
                assert(chain@.map_values(|v: Vec<char>| v@) =~= prev.push(curv));
                assert(prev.push(curv) + up_chain(parent_dir(curv)) =~= prev + (seq![curv]
                    + up_chain(parent_dir(curv))));
            }
            cur = next;
        }
        let ghost prev: Seq<Seq<char>> = chain@.map_values(|v: Vec<char>| v@);
        let ghost curv: Seq<char> = cur@;
        chain.push(cur);
        proof {
            assert(curv =~= Seq::<char>::empty());
            assert(up_chain(curv) =~= seq![curv]);
            assert(chain@.map_values(|v: Vec<char>| v@) =~= prev.push(curv));
            assert(prev.push(curv) =~= prev + seq![curv]);
            assert(chain@.map_values(|v: Vec<char>| v@) == up_chain(d0v));
            lemma_up_chain_props(d0v);
        }
        let ghost chainv: Seq<Seq<char>> = chain@.map_values(|v: Vec<char>| v@);
        let mut r: Vec<&'a GitignoreParser> = Vec::new();
        let mut j: usize = chain.len();
        while j > 0
            invariant
                0 <= j <= chain@.len(),
                chainv == chain@.map_values(|v: Vec<char>| v@),
                chainv == up_chain(d0v),
                chainv.len() >= 1,
                chainv[0] == d0v,
                chainv[chainv.len() - 1] =~= Seq::<char>::empty(),
                forall|k: int|
                    0 <= k < chainv.len() - 1 ==> chainv[k + 1] == parent_dir(
                        #[trigger] chainv[k],
                    ),
                forall|k: int| 0 <= k < chainv.len() - 1 ==> (#[trigger] chainv[k]).len() > 0,
                j == chain@.len() ==> r@.map_values(|p: &GitignoreParser| p@)
                    == Seq::<ScopeV>::empty(),
                j < chain@.len() ==> r@.map_values(|p: &GitignoreParser| p@) == relevant_scopes(
                    self@,
                    chainv[j as int],
                ),
            decreases j,
        {
            let ghost racc: Seq<ScopeV> = r@.map_values(|p: &GitignoreParser| p@);
            let dirc = chars_of(string_of(&chain[j - 1]).as_str());
            proof {
                assert(dirc@ == chainv[j - 1]) by {
                    assert(chainv[j - 1] == chain@[j - 1]@);
                }
                assert(self@.take(0int) =~= Seq::<ScopeV>::empty());
                assert(racc + scopes_at(self@.take(0int), chainv[j - 1]) =~= racc);
            }
            let mut k: usize = 0;
            while k < self.parsers.len()
                invariant
                    0 <= k <= self.parsers@.len(),
                    1 <= j <= chain@.len(),
                    chainv == chain@.map_values(|v: Vec<char>| v@),
                    dirc@ == chainv[j - 1],
                    r@.map_values(|p: &GitignoreParser| p@) == racc + scopes_at(
                        self@.take(k as int),
                        chainv[j - 1],
                    ),
                decreases self.parsers.len() - k,
            {
                proof {
                    assert(self@.take(k + 1 as int).drop_last() =~= self@.take(k as int));
                    assert(self@.take(k + 1 as int).last() == self@[k as int]);
                    assert(self@[k as int] == self.parsers@[k as int]@);
                }
                let ghost pre: Seq<ScopeV> = r@.map_values(|p: &GitignoreParser| p@);
                let p = &self.parsers[k];
                let pdir = chars_of(p.gitignore_dir.as_str());
                if crate::chars::eq_chars(&pdir, &dirc) {
                    r.push(p);
                    proof {
                        assert(r@.map_values(|q: &GitignoreParser| q@) =~= pre.push(
                            self@[k as int],
                        ));
                        assert(pre.push(self@[k as int]) =~= racc + scopes_at(
                            self@.take(k + 1 as int),
                            chainv[j - 1],
                        ));
                    }
                } else {
                    proof {
                        assert(scopes_at(self@.take(k + 1 as int), chainv[j - 1]) == scopes_at(
                            self@.take(k as int),
                            chainv[j - 1],
                        ));
                    }
                }
                k += 1;
            }
            proof {
                assert(self@.take(self.parsers@.len() as int) =~= self@);
            }
            j -= 1;
            proof {
                if j + 1 == chain@.len() {
                    assert(chainv[j as int] =~= Seq::<char>::empty());
                    assert(relevant_scopes(self@, chainv[j as int]) == scopes_at(
                        self@,
                        chainv[j as int],
                    ));
                    assert(racc =~= Seq::<ScopeV>::empty());
                    assert(racc + scopes_at(self@, chainv[j as int]) =~= scopes_at(
                        self@,
                        chainv[j as int],
                    ));
                } else {
                    assert(chainv[j as int].len() > 0);
                    assert(chainv[j as int + 1] == parent_dir(chainv[j as int]));
                    assert(relevant_scopes(self@, chainv[j as int]) == relevant_scopes(
                        self@,
                        parent_dir(chainv[j as int]),
                    ) + scopes_at(self@, chainv[j as int]));
                }
            }
        }
        proof {
            assert(chainv[0] == d0v);
        }
        r
    }
}

impl HierarchicalGitignoreManager {
    /// The final verdict for a path: shallowest relevant scope first, each
    /// scope folding from the verdict accumulated so far, a deeper scope's
    /// flip back to "not ignored" overriding an ancestor's "ignored".
    pub fn should_ignore(&self, path: &str, is_directory: bool) -> (r: bool)
        ensures
            r == spec_resolve(self@, path@, is_directory),
    {
        let relevant = self.find_relevant_parsers(path, is_directory);
        if relevant.len() == 0 {
            return false;
        }
        let ghost relv: Seq<ScopeV> = relevant@.map_values(|p: &GitignoreParser| p@);
        let mut ignored = false;
        let mut overridden = false;
        proof {
            assert(relv.take(0int) =~= Seq::<ScopeV>::empty());
        }
        let mut i: usize = 0;
        while i < relevant.len()
            invariant
                0 <= i <= relevant@.len(),
                relv == relevant@.map_values(|p: &GitignoreParser| p@),
                relv == relevant_scopes(self@, spec_containing_dir(path@, is_directory)),
                (ignored, overridden) == fold_scopes(relv.take(i as int), path@, is_directory),
            decreases relevant.len() - i,
        {
            proof {
                assert(relv.take(i + 1 as int).drop_last() =~= relv.take(i as int));
                assert(relv.take(i + 1 as int).last() == relv[i as int]);
                assert(relv[i as int] == relevant@[i as int]@);
            }
            let current = relevant[i].should_ignore(path, is_directory, ignored);
            if ignored && !current {
                overridden = true;
                ignored = false;
            } else {
                ignored = current;
                overridden = false;
            }
            i += 1;
        }
        proof {
            assert(relv.take(relevant@.len() as int) =~= relv);
        }
        ignored && !overridden
    }
}

// ------------------------------------------------------------------
// laws of the resolver
// ------------------------------------------------------------------

/// Each directory owns at most one scope.
pub open spec fn distinct_dirs(scopes: Seq<ScopeV>) -> bool {
    forall|i: int, j: int| 0 <= i < j < scopes.len() ==> scopes[i].dir != scopes[j].dir
}

proof fn lemma_scopes_at_distinct(s: Seq<ScopeV>, dir: Seq<char>)
    requires
        distinct_dirs(s),
    ensures
        forall|i: int| 0 <= i < s.len() && (#[trigger] s[i]).dir == dir ==> scopes_at(s, dir)
            == seq![s[i]],
        (forall|i: int| 0 <= i < s.len() ==> (#[trigger] s[i]).dir != dir) ==> scopes_at(s, dir)
            == Seq::<ScopeV>::empty(),
    decreases s.len(),
{
    if s.len() > 0 {
        let dl = s.drop_last();
        lemma_scopes_at_distinct(dl, dir);
        assert(forall|i: int| 0 <= i < s.len() - 1 ==> s[i] == (#[trigger] dl[i]));
        if s.last().dir == dir {
            assert forall|i: int| 0 <= i < dl.len() implies (#[trigger] dl[i]).dir != dir by {
                assert(dl[i] == s[i]);
                assert(s[i].dir != s[s.len() - 1].dir);
            }
            assert(scopes_at(dl, dir) == Seq::<ScopeV>::empty());
            assert(scopes_at(s, dir) =~= seq![s.last()]);
            assert forall|i: int| 0 <= i < s.len() && (#[trigger] s[i]).dir == dir implies scopes_at(
                s,
                dir,
            ) == seq![s[i]] by {
                if i < s.len() - 1 {
                    assert(s[i].dir != s[s.len() - 1].dir);
                } else {
                    assert(s[i] == s.last());
                }
            }
        } else {
            assert(scopes_at(s, dir) == scopes_at(dl, dir));
            assert forall|i: int| 0 <= i < s.len() && (#[trigger] s[i]).dir == dir implies scopes_at(
                s,
                dir,
            ) == seq![s[i]] by {
                assert(i < s.len() - 1);
                assert(dl[i] == s[i]);
            }
            if forall|i: int| 0 <= i < s.len() ==> (#[trigger] s[i]).dir != dir {
                assert forall|i: int| 0 <= i < dl.len() implies (#[trigger] dl[i]).dir != dir by {
                    assert(dl[i] == s[i]);
                }
            }
        }
    }
}

proof fn lemma_relevant_eq(s1: Seq<ScopeV>, s2: Seq<ScopeV>, d: Seq<char>)
    requires
        forall|dir: Seq<char>| #[trigger] scopes_at(s1, dir) == scopes_at(s2, dir),
    ensures
        relevant_scopes(s1, d) == relevant_scopes(s2, d),
    decreases d.len(),
{
    lemma_parent_shorter(d);
    if d.len() > 0 {
        lemma_relevant_eq(s1, s2, parent_dir(d));
    }
}

/// Discovery order of the ignore files does not matter: two managers holding
/// the same scopes in any order, each directory owning at most one scope,
/// resolve every path alike, because the fold re-orders the relevant scopes
/// by the owning directory's depth before folding.
pub proof fn lemma_resolve_order_independent(
    s1: Seq<ScopeV>,
    s2: Seq<ScopeV>,
    path: Seq<char>,
    is_dir: bool,
)
    requires
        s1.to_multiset() == s2.to_multiset(),
        distinct_dirs(s1),
        distinct_dirs(s2),
    ensures
        spec_resolve(s1, path, is_dir) == spec_resolve(s2, path, is_dir),
{
    s1.to_multiset_ensures();
    s2.to_multiset_ensures();
    assert forall|dir: Seq<char>| #[trigger] scopes_at(s1, dir) == scopes_at(s2, dir) by {
        lemma_scopes_at_distinct(s1, dir);
        lemma_scopes_at_distinct(s2, dir);
        if exists|i: int| 0 <= i < s1.len() && (#[trigger] s1[i]).dir == dir {
            let i = choose|i: int| 0 <= i < s1.len() && (#[trigger] s1[i]).dir == dir;
            let x = s1[i];
            assert(s1.contains(x));
            assert(s1.to_multiset().count(x) > 0);
            assert(s2.to_multiset().count(x) > 0);
            assert(s2.contains(x));
            let j = choose|j: int| 0 <= j < s2.len() && s2[j] == x;
            assert(scopes_at(s1, dir) == seq![x]);
            assert(scopes_at(s2, dir) == seq![x]);
        } else {
            assert(forall|i: int| 0 <= i < s1.len() ==> (#[trigger] s1[i]).dir != dir);
            assert forall|j: int| 0 <= j < s2.len() implies (#[trigger] s2[j]).dir != dir by {
                if s2[j].dir == dir {
                    assert(s2.contains(s2[j]));
                    assert(s2.to_multiset().count(s2[j]) > 0);
                    assert(s1.to_multiset().count(s2[j]) > 0);
                    assert(s1.contains(s2[j]));
                    let i = choose|i: int| 0 <= i < s1.len() && s1[i] == s2[j];
                    assert(s1[i].dir == dir);
                }
            }
            assert(scopes_at(s1, dir) == Seq::<ScopeV>::empty());
            assert(scopes_at(s2, dir) == Seq::<ScopeV>::empty());
        }
    }
    lemma_relevant_eq(s1, s2, spec_containing_dir(path, is_dir));
}

/// The built-in `.git` rule is directory-only: within a scope holding
/// exactly that rule it never touches a regular file, whatever its name, so
/// a file named `.git` keeps the inherited verdict.
pub proof fn lemma_git_rule_skips_files(scope: ScopeV, path: Seq<char>, inherited: bool)
    requires
        scope.patterns == seq![
            PatV { text: git_dir_chars(), negative: false, directory_only: true, anchored: false },
        ],
    ensures
        spec_scope_ignore(scope, path, false, inherited) == inherited,
{
    let ps = scope.patterns;
    assert(ps.len() == 1);
    assert(ps.drop_last() =~= Seq::<PatV>::empty());
    assert(fold_patterns(Seq::<PatV>::empty(), Seq::<char>::empty(), false, inherited) == (
        inherited,
        false,
    ));
    if rel_under(path, scope.dir) is Some {
        let rel = rel_under(path, scope.dir).unwrap();
        if !rel_escapes(rel) {
            assert(ps.last().directory_only);
            assert(fold_patterns(ps, rel, false, inherited) == fold_patterns(
                ps.drop_last(),
                rel,
                false,
                inherited,
            ));
        }
    }
}

/// The built-in `.git` rule ignores a directory with a `.git` segment
/// anywhere beneath the scope, and touches no other directory.
pub proof fn lemma_git_rule_ignores_git_dirs(scope: ScopeV, path: Seq<char>, inherited: bool)
    requires
        scope.patterns == seq![
            PatV { text: git_dir_chars(), negative: false, directory_only: true, anchored: false },
        ],
        rel_under(path, scope.dir) is Some,
        !rel_escapes(rel_under(path, scope.dir).unwrap()),
    ensures
        spec_scope_ignore(scope, path, true, inherited) == (inherited || split_slash_spec(
            rel_under(path, scope.dir).unwrap().push('/'),
        ).contains(git_dir_chars())),
{
    let ps = scope.patterns;
    assert(ps.len() == 1);
    assert(ps.drop_last() =~= Seq::<PatV>::empty());
    lemma_collapse_no_star(git_dir_chars());
    let rel = rel_under(path, scope.dir).unwrap();
    let mp = rel.push('/');
    assert(git_dir_chars() != star_star());
    let segs = split_slash_spec(mp);
    assert(crate::globx::is_glob_literal(git_dir_chars()));
    assert(spec_matches_pattern(mp, git_dir_chars(), false) == segs.contains(git_dir_chars()))
        by {
        if segs.contains(git_dir_chars()) {
            let k = choose|k: int| 0 <= k < segs.len() && segs[k] == git_dir_chars();
            assert(crate::globx::glob_match(collapse_stars(git_dir_chars()), segs[k]));
        }
        if spec_matches_pattern(mp, git_dir_chars(), false) {
            let k = choose|k: int|
                0 <= k < segs.len() && crate::globx::glob_match(
                    collapse_stars(git_dir_chars()),
                    segs[k],
                );
            assert(segs[k] == git_dir_chars());
        }
    }
    assert(fold_patterns(Seq::<PatV>::empty(), mp, true, inherited) == (inherited, false));
    assert(fold_patterns(ps.drop_last(), mp, true, inherited) == (inherited, false));
    if segs.contains(git_dir_chars()) {
        assert(fold_patterns(ps, mp, true, inherited) == (true, false));
    } else {
        assert(fold_patterns(ps, mp, true, inherited) == (inherited, false));
    }
}

/// A scope whose one file pattern is `**` ignores every path beneath the
/// directory it owns, no matter what was passed down to it, because such a
/// pattern matches unconditionally and is not a negation.
pub proof fn lemma_star_star_scope_ignores_all(
    scope: ScopeV,
    path: Seq<char>,
    is_dir: bool,
    inherited: bool,
)
    requires
        scope.patterns == builtin_patterns().push(
            PatV { text: star_star(), negative: false, directory_only: false, anchored: false },
        ),
        rel_under(path, scope.dir) is Some,
        !rel_escapes(rel_under(path, scope.dir).unwrap()),
    ensures
        spec_scope_ignore(scope, path, is_dir, inherited),
{
    let rel = rel_under(path, scope.dir).unwrap();
    let mp = if is_dir {
        rel.push('/')
    } else {
        rel
    };
    let ps = scope.patterns;
    assert(ps.len() == 4);
    assert(ps.last().text == star_star());
    assert(spec_matches_pattern(mp, star_star(), false));
    assert(fold_patterns(ps, mp, is_dir, inherited) == (true, false));
}

} // verus!
