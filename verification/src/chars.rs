//! Character-sequence utilities shared by the ignore-rule engine and the
//! tree walker.  Paths and patterns are handled as vectors of characters;
//! the two conversions to and from `String` are the only trusted pieces.

use vstd::prelude::*;

verus! {

/// Relies on str::chars: yields exactly the characters of the string, in order.
#[verifier::external_body]
pub fn chars_of(s: &str) -> (r: Vec<char>)
    ensures
        r@ == s@,
{
    s.chars().collect()
}

/// Relies on String's FromIterator over char: builds the string holding
/// exactly those characters, in order.
#[verifier::external_body]
pub fn string_of(cs: &Vec<char>) -> (r: String)
    ensures
        r@ == cs@,
{
    cs.iter().collect()
}

pub fn eq_chars(a: &Vec<char>, b: &Vec<char>) -> (r: bool)
    ensures
        r == (a@ == b@),
{
    if a.len() != b.len() {
        return false;
    }
    let mut i: usize = 0;
    while i < a.len()
        invariant
            a.len() == b.len(),
            0 <= i <= a.len(),
            forall|j: int| 0 <= j < i ==> a@[j] == b@[j],
        decreases a.len() - i,
    {
        if a[i] != b[i] {
            return false;
        }
        i += 1;
    }
    proof {
        assert(a@ =~= b@);
    }
    true
}

pub fn concat_chars(a: &Vec<char>, b: &Vec<char>) -> (r: Vec<char>)
    ensures
        r@ == a@ + b@,
{
    let mut r: Vec<char> = Vec::new();
    let mut i: usize = 0;
    while i < a.len()
        invariant
            0 <= i <= a.len(),
            r@ == a@.take(i as int),
        decreases a.len() - i,
    {
        r.push(a[i]);
        proof {
            assert(a@.take(i + 1 as int) =~= a@.take(i as int).push(a@[i as int]));
        }
        i += 1;
    }
    let mut j: usize = 0;
    while j < b.len()
        invariant
            0 <= j <= b.len(),
            r@ == a@ + b@.take(j as int),
        decreases b.len() - j,
    {
        r.push(b[j]);
        proof {
            assert(a@ + b@.take(j + 1 as int) =~= (a@ + b@.take(j as int)).push(b@[j as int]));
        }
        j += 1;
    }
    proof {
        assert(a@.take(a@.len() as int) =~= a@);
        assert(b@.take(b@.len() as int) =~= b@);
    }
    r
}

pub fn slice_range(v: &Vec<char>, from: usize, to: usize) -> (r: Vec<char>)
    requires
        from <= to <= v@.len(),
    ensures
        r@ == v@.subrange(from as int, to as int),
{
    let mut r: Vec<char> = Vec::new();
    let mut i: usize = from;
    while i < to
        invariant
            from <= i <= to <= v@.len(),
            r@ == v@.subrange(from as int, i as int),
        decreases to - i,
    {
        r.push(v[i]);
        proof {
            assert(v@.subrange(from as int, i + 1 as int) =~= v@.subrange(from as int, i as int).push(
                v@[i as int],
            ));
        }
        i += 1;
    }
    r
}

pub open spec fn is_space(c: char) -> bool {
    c == ' ' || c == '\t' || c == '\n' || c == '\r' || c == '\u{000b}' || c == '\u{000c}'
}

fn is_space_exec(c: char) -> (r: bool)
    ensures
        r == is_space(c),
{
    c == ' ' || c == '\t' || c == '\n' || c == '\r' || c == '\u{000b}' || c == '\u{000c}'
}

pub open spec fn trim_start_spec(s: Seq<char>) -> Seq<char>
    decreases s.len(),
{
    if s.len() > 0 && is_space(s[0]) {
        trim_start_spec(s.skip(1))
    } else {
        s
    }
}

pub open spec fn trim_end_spec(s: Seq<char>) -> Seq<char>
    decreases s.len(),
{
    if s.len() > 0 && is_space(s[s.len() - 1]) {
        trim_end_spec(s.drop_last())
    } else {
        s
    }
}

pub open spec fn trim_spec(s: Seq<char>) -> Seq<char> {
    trim_end_spec(trim_start_spec(s))
}

pub fn trim_chars(s: &Vec<char>) -> (r: Vec<char>)
    ensures
        r@ == trim_spec(s@),
{
    proof {
        assert(s@.skip(0int) =~= s@);
    }
    let mut lo: usize = 0;
    while lo < s.len() && is_space_exec(s[lo])
        invariant
            0 <= lo <= s.len(),
            trim_start_spec(s@) == trim_start_spec(s@.skip(lo as int)),
        decreases s.len() - lo,
    {
        proof {
            assert(s@.skip(lo as int).skip(1) =~= s@.skip(lo + 1 as int));
        }
        lo += 1;
    }
    proof {
        assert(trim_start_spec(s@) == s@.skip(lo as int));
    }
    let mut st: Vec<char> = Vec::new();
    let mut j: usize = lo;
    while j < s.len()
        invariant
            lo <= j <= s@.len(),
            st@ == s@.skip(lo as int).take(j - lo),
        decreases s.len() - j,
    {
        st.push(s[j]);
        proof {
            assert(s@.skip(lo as int).take(j + 1 - lo) =~= s@.skip(lo as int).take(j - lo).push(
                s@[j as int],
            ));
        }
        j += 1;
    }
    proof {
        assert(s@.skip(lo as int).take(s@.len() - lo) =~= s@.skip(lo as int));
        assert(st@ == trim_start_spec(s@));
        assert(st@.take(st@.len() as int) =~= st@);
    }
    let mut hi: usize = st.len();
    while hi > 0 && is_space_exec(st[hi - 1])
        invariant
            0 <= hi <= st@.len(),
            trim_end_spec(st@) == trim_end_spec(st@.take(hi as int)),
        decreases hi,
    {
        proof {
            assert(st@.take(hi as int).drop_last() =~= st@.take(hi - 1 as int));
        }
        hi -= 1;
    }
    proof {
        assert(trim_end_spec(st@) == st@.take(hi as int));
    }
    let mut r: Vec<char> = Vec::new();
    let mut i: usize = 0;
    while i < hi
        invariant
            0 <= i <= hi <= st@.len(),
            r@ == st@.take(i as int),
        decreases hi - i,
    {
        r.push(st[i]);
        proof {
            assert(st@.take(i + 1 as int) =~= st@.take(i as int).push(st@[i as int]));
        }
        i += 1;
    }
    r
}

pub open spec fn unescape_spaces(s: Seq<char>) -> Seq<char>
    decreases s.len(),
{
    if s.len() >= 2 && s[0] == '\\' && s[1] == ' ' {
        seq![' '] + unescape_spaces(s.skip(2))
    } else if s.len() == 0 {
        s
    } else {
        seq![s[0]] + unescape_spaces(s.skip(1))
    }
}

pub fn unescape_spaces_exec(s: &Vec<char>) -> (r: Vec<char>)
    ensures
        r@ == unescape_spaces(s@),
{
    let mut r: Vec<char> = Vec::new();
    proof {
        assert(s@.skip(0int) =~= s@);
        assert(Seq::<char>::empty() + unescape_spaces(s@) =~= unescape_spaces(s@));
    }
    let mut i: usize = 0;
    while i < s.len()
        invariant
            0 <= i <= s.len(),
            unescape_spaces(s@) == r@ + unescape_spaces(s@.skip(i as int)),
        decreases s.len() - i,
    {
        if i + 1 < s.len() && s[i] == '\\' && s[i + 1] == ' ' {
            r.push(' ');
            proof {
                assert(s@.skip(i as int).skip(2) =~= s@.skip(i + 2 as int));
                assert(r@ + unescape_spaces(s@.skip(i + 2 as int)) =~= (r@.drop_last() + (
                seq![' '] + unescape_spaces(s@.skip(i + 2 as int)))));
            }
            i += 2;
        } else {
            r.push(s[i]);
            proof {
                assert(s@.skip(i as int).skip(1) =~= s@.skip(i + 1 as int));
                assert(r@ + unescape_spaces(s@.skip(i + 1 as int)) =~= (r@.drop_last() + (seq![
                    s@[i as int],
                ] + unescape_spaces(s@.skip(i + 1 as int)))));
            }
            i += 1;
        }
    }
    proof {
        assert(s@.skip(s@.len() as int) =~= Seq::<char>::empty());
        assert(r@ + Seq::<char>::empty() =~= r@);
    }
    r
}

pub open spec fn collapse_stars(s: Seq<char>) -> Seq<char>
    decreases s.len(),
{
    if s.len() >= 2 && s[0] == '*' && s[1] == '*' {
        seq!['*'] + collapse_stars(s.skip(2))
    } else if s.len() == 0 {
        s
    } else {
        seq![s[0]] + collapse_stars(s.skip(1))
    }
}

pub fn collapse_stars_exec(s: &Vec<char>) -> (r: Vec<char>)
    ensures
        r@ == collapse_stars(s@),
{
    let mut r: Vec<char> = Vec::new();
    proof {
        assert(s@.skip(0int) =~= s@);
        assert(Seq::<char>::empty() + collapse_stars(s@) =~= collapse_stars(s@));
    }
    let mut i: usize = 0;
    while i < s.len()
        invariant
            0 <= i <= s.len(),
            collapse_stars(s@) == r@ + collapse_stars(s@.skip(i as int)),
        decreases s.len() - i,
    {
        if i + 1 < s.len() && s[i] == '*' && s[i + 1] == '*' {
            r.push('*');
            proof {
                assert(s@.skip(i as int).skip(2) =~= s@.skip(i + 2 as int));
                assert(r@ + collapse_stars(s@.skip(i + 2 as int)) =~= (r@.drop_last() + (
                seq!['*'] + collapse_stars(s@.skip(i + 2 as int)))));
            }
            i += 2;
        } else {
            r.push(s[i]);
            proof {
                assert(s@.skip(i as int).skip(1) =~= s@.skip(i + 1 as int));
                assert(r@ + collapse_stars(s@.skip(i + 1 as int)) =~= (r@.drop_last() + (seq![
                    s@[i as int],
                ] + collapse_stars(s@.skip(i + 1 as int)))));
            }
            i += 1;
        }
    }
    proof {
        assert(s@.skip(s@.len() as int) =~= Seq::<char>::empty());
        assert(r@ + Seq::<char>::empty() =~= r@);
    }
    r
}

/// A pattern with no occurrence of `*` keeps its text under star collapsing.
pub proof fn lemma_collapse_no_star(s: Seq<char>)
    requires
        forall|i: int| 0 <= i < s.len() ==> s[i] != '*',
    ensures
        collapse_stars(s) == s,
    decreases s.len(),
{
    if s.len() > 0 {
        lemma_collapse_no_star(s.skip(1));
        assert(seq![s[0]] + s.skip(1) =~= s);
    }
}

pub open spec fn esc_char(c: char) -> Seq<char> {
    if c == '?' || c == '[' || c == ']' {
        seq!['[', c, ']']
    } else {
        seq![c]
    }
}

pub open spec fn escape_meta(s: Seq<char>) -> Seq<char>
    decreases s.len(),
{
    if s.len() == 0 {
        s
    } else {
        esc_char(s[0]) + escape_meta(s.skip(1))
    }
}

pub fn escape_meta_exec(s: &Vec<char>) -> (r: Vec<char>)
    ensures
        r@ == escape_meta(s@),
{
    let mut r: Vec<char> = Vec::new();
    proof {
        assert(s@.skip(0int) =~= s@);
        assert(Seq::<char>::empty() + escape_meta(s@) =~= escape_meta(s@));
    }
    let mut i: usize = 0;
    while i < s.len()
        invariant
            0 <= i <= s.len(),
            escape_meta(s@) == r@ + escape_meta(s@.skip(i as int)),
        decreases s.len() - i,
    {
        let ghost r0: Seq<char> = r@;
        let c = s[i];
        if c == '?' || c == '[' || c == ']' {
            r.push('[');
            r.push(c);
            r.push(']');
        } else {
            r.push(c);
        }
        proof {
            assert(s@.skip(i as int).skip(1) =~= s@.skip(i + 1 as int));
            assert(r@ =~= r0 + esc_char(s@[i as int]));
            assert(r@ + escape_meta(s@.skip(i + 1 as int)) =~= r0 + (esc_char(s@[i as int])
                + escape_meta(s@.skip(i + 1 as int))));
        }
        i += 1;
    }
    proof {
        assert(s@.skip(s@.len() as int) =~= Seq::<char>::empty());
        assert(r@ + Seq::<char>::empty() =~= r@);
    }
    r
}

pub open spec fn split_slash_spec(s: Seq<char>) -> Seq<Seq<char>>
    decreases s.len(),
{
    if s.len() == 0 {
        seq![Seq::<char>::empty()]
    } else if s[s.len() - 1] == '/' {
        split_slash_spec(s.drop_last()).push(Seq::<char>::empty())
    } else {
        let r = split_slash_spec(s.drop_last());
        r.update(r.len() - 1, r[r.len() - 1].push(s[s.len() - 1]))
    }
}

pub fn split_slash(s: &Vec<char>) -> (r: Vec<Vec<char>>)
    ensures
        r@.map_values(|v: Vec<char>| v@) == split_slash_spec(s@),
{
    let mut out: Vec<Vec<char>> = Vec::new();
    let mut cur: Vec<char> = Vec::new();
    let mut i: usize = 0;
    while i < s.len()
        invariant
            0 <= i <= s.len(),
            out@.map_values(|v: Vec<char>| v@).push(cur@) == split_slash_spec(s@.take(i as int)),
        decreases s.len() - i,
    {
        let ghost pre: Seq<Seq<char>> = out@.map_values(|v: Vec<char>| v@);
        let ghost cur0: Seq<char> = cur@;
        if s[i] == '/' {
            out.push(cur);
            cur = Vec::new();
            proof {
                assert(s@.take(i + 1 as int).drop_last() =~= s@.take(i as int));
                assert(out@.map_values(|v: Vec<char>| v@) =~= pre.push(cur0));
                assert(out@.map_values(|v: Vec<char>| v@).push(cur@) =~= split_slash_spec(
                    s@.take(i as int),
                ).push(Seq::<char>::empty()));
            }
        } else {
            cur.push(s[i]);
            proof {
                assert(s@.take(i + 1 as int).drop_last() =~= s@.take(i as int));
                let old_split = split_slash_spec(s@.take(i as int));
                assert(old_split == pre.push(cur0));
                assert(old_split.len() == pre.len() + 1);
                assert(old_split[old_split.len() - 1] == cur0);
                assert(pre.push(cur@) =~= old_split.update(
                    old_split.len() - 1,
                    cur0.push(s@[i as int]),
                ));
            }
        }
        i += 1;
    }
    proof {
        assert(s@.take(s@.len() as int) =~= s@);
    }
    let ghost pre_final: Seq<Seq<char>> = out@.map_values(|v: Vec<char>| v@);
    let ghost cur_final: Seq<char> = cur@;
    out.push(cur);
    proof {
        assert(out@.map_values(|v: Vec<char>| v@) =~= pre_final.push(cur_final));
    }
    out
}

pub open spec fn parent_dir(s: Seq<char>) -> Seq<char>
    decreases s.len(),
{
    if s.len() == 0 {
        s
    } else if s[s.len() - 1] == '/' {
        s.drop_last()
    } else {
        parent_dir(s.drop_last())
    }
}

pub proof fn lemma_parent_shorter(s: Seq<char>)
    ensures
        s.len() > 0 ==> parent_dir(s).len() < s.len(),
    decreases s.len(),
{
    if s.len() > 0 {
        lemma_parent_shorter(s.drop_last());
        if s[s.len() - 1] == '/' {
            assert(parent_dir(s) == s.drop_last());
        } else {
            assert(parent_dir(s) == parent_dir(s.drop_last()));
        }
    }
}

pub fn parent_dir_exec(s: &Vec<char>) -> (r: Vec<char>)
    ensures
        r@ == parent_dir(s@),
{
    proof {
        assert(s@.take(s@.len() as int) =~= s@);
    }
    let mut i: usize = s.len();
    while i > 0 && s[i - 1] != '/'
        invariant
            0 <= i <= s.len(),
            parent_dir(s@) == parent_dir(s@.take(i as int)),
        decreases i,
    {
        proof {
            assert(s@.take(i as int).drop_last() =~= s@.take(i - 1 as int));
        }
        i -= 1;
    }
    let mut r: Vec<char> = Vec::new();
    if i == 0 {
        return r;
    }
    proof {
        assert(s@.take(i as int).drop_last() =~= s@.take(i - 1 as int));
        assert(parent_dir(s@) == s@.take(i - 1 as int));
    }
    let mut j: usize = 0;
    while j < i - 1
        invariant
            0 <= j <= i - 1,
            1 <= i <= s@.len(),
            r@ == s@.take(i - 1 as int).take(j as int),
        decreases i - j,
    {
        r.push(s[j]);
        proof {
            assert(s@.take(i - 1 as int).take(j + 1 as int) =~= s@.take(i - 1 as int).take(
                j as int,
            ).push(s@[j as int]));
        }
        j += 1;
    }
    proof {
        assert(s@.take(i - 1 as int).take(i - 1 as int) =~= s@.take(i - 1 as int));
    }
    r
}

pub open spec fn basename_spec(s: Seq<char>) -> Seq<char>
    decreases s.len(),
{
    if s.len() == 0 {
        s
    } else if s[s.len() - 1] == '/' {
        Seq::<char>::empty()
    } else {
        basename_spec(s.drop_last()).push(s[s.len() - 1])
    }
}

pub fn basename_exec(s: &Vec<char>) -> (r: Vec<char>)
    ensures
        r@ == basename_spec(s@),
{
    proof {
        assert(s@.take(s@.len() as int) =~= s@);
        assert(s@.skip(s@.len() as int) =~= Seq::<char>::empty());
        assert(basename_spec(s@) + Seq::<char>::empty() =~= basename_spec(s@));
    }
    let mut i: usize = s.len();
    while i > 0 && s[i - 1] != '/'
        invariant
            0 <= i <= s.len(),
            basename_spec(s@) == basename_spec(s@.take(i as int)) + s@.skip(i as int),
        decreases i,
    {
        proof {
            assert(s@.take(i as int).drop_last() =~= s@.take(i - 1 as int));
            assert(basename_spec(s@.take(i - 1 as int)).push(s@[i - 1]) + s@.skip(i as int) =~= basename_spec(
                s@.take(i - 1 as int),
            ) + s@.skip(i - 1 as int));
        }
        i -= 1;
    }
    proof {
        if i == 0 {
            assert(s@.take(0int) =~= Seq::<char>::empty());
            assert(basename_spec(Seq::<char>::empty()) + s@.skip(0int) =~= s@.skip(i as int));
        } else {
            assert(basename_spec(s@.take(i as int)) =~= Seq::<char>::empty());
            assert(Seq::<char>::empty() + s@.skip(i as int) =~= s@.skip(i as int));
        }
        assert(basename_spec(s@) == s@.skip(i as int));
    }
    let mut r: Vec<char> = Vec::new();
    let mut j: usize = i;
    while j < s.len()
        invariant
            i <= j <= s@.len(),
            r@ == s@.skip(i as int).take(j - i),
        decreases s.len() - j,
    {
        r.push(s[j]);
        proof {
            assert(s@.skip(i as int).take(j + 1 - i) =~= s@.skip(i as int).take(j - i).push(
                s@[j as int],
            ));
        }
        j += 1;
    }
    proof {
        assert(s@.skip(i as int).take(s@.len() - i) =~= s@.skip(i as int));
    }
    r
}

pub open spec fn rel_under(path: Seq<char>, dir: Seq<char>) -> Option<Seq<char>> {
    if dir.len() == 0 {
        Some(path)
    } else if path == dir {
        Some(Seq::<char>::empty())
    } else if path.len() > dir.len() && path.take(dir.len() as int) == dir && path[dir.len() as int]
        == '/' {
        Some(path.skip(dir.len() as int + 1))
    } else {
        None
    }
}

pub fn rel_under_exec(path: &Vec<char>, dir: &Vec<char>) -> (r: Option<Vec<char>>)
    ensures
        match r {
            Some(v) => rel_under(path@, dir@) == Some(v@),
            None => rel_under(path@, dir@) is None,
        },
{
    if dir.len() == 0 {
        let mut r: Vec<char> = Vec::new();
        let mut i: usize = 0;
        while i < path.len()
            invariant
                0 <= i <= path.len(),
                r@ == path@.take(i as int),
            decreases path.len() - i,
        {
            r.push(path[i]);
            proof {
                assert(path@.take(i + 1 as int) =~= path@.take(i as int).push(path@[i as int]));
            }
            i += 1;
        }
        proof {
            assert(path@.take(path@.len() as int) =~= path@);
        }
        return Some(r);
    }
    if path.len() < dir.len() {
        return None;
    }
    let mut i: usize = 0;
    while i < dir.len()
        invariant
            0 <= i <= dir.len(),
            dir.len() <= path.len(),
            forall|j: int| 0 <= j < i ==> path@[j] == dir@[j],
        decreases dir.len() - i,
    {
        if path[i] != dir[i] {
            proof {
                assert(path@ != dir@);
                assert(path@.take(dir@.len() as int) != dir@) by {
                    assert(path@.take(dir@.len() as int)[i as int] == path@[i as int]);
                }
            }
            return None;
        }
        i += 1;
    }
    proof {
        assert(path@.take(dir@.len() as int) =~= dir@) by {
            assert(forall|j: int|
                0 <= j < dir@.len() ==> path@.take(dir@.len() as int)[j] == dir@[j]);
        }
    }
    if path.len() == dir.len() {
        proof {
            assert(path@ =~= dir@);
        }
        return Some(Vec::new());
    }
    if path[dir.len()] != '/' {
        proof {
            assert(path@ != dir@) by {
                assert(path@.len() != dir@.len());
            }
        }
        return None;
    }
    let ghost dl: int = dir@.len() as int;
    let mut r: Vec<char> = Vec::new();
    let mut j: usize = dir.len() + 1;
    while j < path.len()
        invariant
            dl == dir@.len(),
            dl + 1 <= j <= path@.len(),
            r@ == path@.skip(dl + 1).take(j - dl - 1),
        decreases path.len() - j,
    {
        r.push(path[j]);
        proof {
            assert(path@.skip(dl + 1).take(j + 1 - dl - 1) =~= path@.skip(dl + 1).take(
                j - dl - 1,
            ).push(path@[j as int]));
        }
        j += 1;
    }
    proof {
        assert(path@.skip(dl + 1).take(path@.len() - dl - 1) =~= path@.skip(dl + 1));
        assert(path@ != dir@) by {
            assert(path@.len() != dir@.len());
        }
    }
    Some(r)
}

pub open spec fn lex_le(a: Seq<char>, b: Seq<char>) -> bool
    decreases a.len(),
{
    if a.len() == 0 {
        true
    } else if b.len() == 0 {
        false
    } else if a[0] == b[0] {
        lex_le(a.skip(1), b.skip(1))
    } else {
        (a[0] as u32) < (b[0] as u32)
    }
}

pub fn lex_le_exec(a: &Vec<char>, b: &Vec<char>) -> (r: bool)
    ensures
        r == lex_le(a@, b@),
{
    proof {
        assert(a@.skip(0int) =~= a@);
        assert(b@.skip(0int) =~= b@);
    }
    let mut i: usize = 0;
    while i < a.len() && i < b.len() && a[i] == b[i]
        invariant
            0 <= i <= a.len(),
            0 <= i <= b.len(),
            lex_le(a@, b@) == lex_le(a@.skip(i as int), b@.skip(i as int)),
        decreases a.len() - i,
    {
        proof {
            assert(a@.skip(i as int).skip(1) =~= a@.skip(i + 1 as int));
            assert(b@.skip(i as int).skip(1) =~= b@.skip(i + 1 as int));
        }
        i += 1;
    }
    if i >= a.len() {
        true
    } else if i >= b.len() {
        false
    } else {
        (a[i] as u32) < (b[i] as u32)
    }
}

} // verus!
