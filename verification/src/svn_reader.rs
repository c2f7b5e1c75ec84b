//! Reading the status of a Subversion working copy, locally only.
//!
//! The commands run outside the library; it receives their output.
use vstd::prelude::*;
use crate::git_reader::outcome;
use crate::model::{opt_str, placeholder, RepoRef, RepoRefView, RepoState, RepoStatus, RepoStatusView};
use crate::text::{
    chars_eq_str, chars_of, count_where, find_char, has_prefix_str, lemma_count_where_bound,
    lemma_count_where_ext, lemma_count_where_push, lemma_find_char_is, lemma_trim_keeps_first, lemma_trim_unchanged, is_ws, starts_with, lemma_split_on_nonempty, lines, split_lines, split_on,
    string_from_chars, strip_all_prefix, sub_chars, trim, trim_chars,
};

verus! {

/// What one `svn status` output says about the working copy.
#[derive(Debug, PartialEq, Eq)]
pub struct SvnParsed {
    pub modified: u32,
    pub untracked: u32,
    pub conflicts: u32,
    pub is_clean: bool,
}

/// A first-column code counted as a modification: `M A D R ! ~`.
pub open spec fn modified_code(c: char) -> bool {
    c == 'M' || c == 'A' || c == 'D' || c == 'R' || c == '!' || c == '~'
}

/// A first-column code with no meaning of its own, so that the property
/// column decides: anything but `M A D R ! ~ ? C I X`.
pub open spec fn other_code(c: char) -> bool {
    !modified_code(c) && c != '?' && c != 'C' && c != 'I' && c != 'X'
}

/// The second byte of the line is `c`: the line starts with an ASCII
/// character and its second character is `c`.
pub open spec fn second_byte_is(l: Seq<char>, c: char) -> bool {
    (l[0] as u32) < 0x80 && l.len() >= 2 && l[1] == c
}

/// A line that is not blank.
pub open spec fn svn_counted(l: Seq<char>) -> bool {
    trim(l).len() > 0
}

pub open spec fn svn_modified_line(l: Seq<char>) -> bool {
    svn_counted(l) && (modified_code(l[0]) || (other_code(l[0]) && second_byte_is(l, 'M')))
}

pub open spec fn svn_untracked_line(l: Seq<char>) -> bool {
    svn_counted(l) && l[0] == '?'
}

pub open spec fn svn_conflict_line(l: Seq<char>) -> bool {
    svn_counted(l) && (l[0] == 'C' || (other_code(l[0]) && second_byte_is(l, 'C')))
}

/// Mathematical view of an [`SvnParsed`].
pub struct SvnParsedView {
    pub modified: u32,
    pub untracked: u32,
    pub conflicts: u32,
    pub is_clean: bool,
}

impl View for SvnParsed {
    type V = SvnParsedView;

    open spec fn view(&self) -> SvnParsedView {
        SvnParsedView {
            modified: self.modified,
            untracked: self.untracked,
            conflicts: self.conflicts,
            is_clean: self.is_clean,
        }
    }
}

/// What `svn status` output `text` says.
pub open spec fn svn_status(text: Seq<char>) -> SvnParsedView {
    let ls = lines(text);
    let m = count_where(ls, |l: Seq<char>| svn_modified_line(l));
    let u = count_where(ls, |l: Seq<char>| svn_untracked_line(l));
    let c = count_where(ls, |l: Seq<char>| svn_conflict_line(l));
    SvnParsedView {
        modified: m as u32,
        untracked: u as u32,
        conflicts: c as u32,
        is_clean: m == 0 && u == 0 && c == 0,
    }
}

/// Parses the output of `svn status` (without `-u`).
pub fn parse_svn_status(text: &str) -> (r: SvnParsed)
    requires
        lines(text@).len() <= u32::MAX,
    ensures
        r@ == svn_status(text@),
{
    let cs = chars_of(text);
    let ls = split_lines(&cs);
    let ghost lns = lines(text@);
    let mut modified: u32 = 0;
    let mut untracked: u32 = 0;
    let mut conflicts: u32 = 0;
    let n = ls.len();
    for i in 0..n
        invariant
            n == ls@.len(),
            n == lns.len(),
            n <= u32::MAX,
            forall|k: int| 0 <= k < ls@.len() ==> (#[trigger] ls@[k])@ == lns[k],
            modified == count_where(lns.take(i as int), |l: Seq<char>| svn_modified_line(l)),
            untracked == count_where(lns.take(i as int), |l: Seq<char>| svn_untracked_line(l)),
            conflicts == count_where(lns.take(i as int), |l: Seq<char>| svn_conflict_line(l)),
    {
        let line = &ls[i];
        let ghost prev = lns.take(i as int);
        proof {
            assert(lns.take(i + 1) =~= prev.push(line@));
            lemma_count_where_push(prev, line@, |l: Seq<char>| svn_modified_line(l));
            lemma_count_where_push(prev, line@, |l: Seq<char>| svn_untracked_line(l));
            lemma_count_where_push(prev, line@, |l: Seq<char>| svn_conflict_line(l));
            lemma_count_where_bound(prev, |l: Seq<char>| svn_modified_line(l));
            lemma_count_where_bound(prev, |l: Seq<char>| svn_untracked_line(l));
            lemma_count_where_bound(prev, |l: Seq<char>| svn_conflict_line(l));
        }
        let t = trim_chars(line);
        if t.len() > 0 {
            let c0 = line[0];
            let ascii0 = (c0 as u32) < 0x80;
            if c0 == 'M' || c0 == 'A' || c0 == 'D' || c0 == 'R' || c0 == '!' || c0 == '~' {
                modified += 1;
            } else if c0 == '?' {
                untracked += 1;
            } else if c0 == 'C' {
                conflicts += 1;
            } else if c0 == 'I' || c0 == 'X' {
            } else if ascii0 && line.len() >= 2 && line[1] == 'M' {
                modified += 1;
            } else if ascii0 && line.len() >= 2 && line[1] == 'C' {
                conflicts += 1;
            }
        }
    }
    proof {
        assert(lns.take(n as int) =~= lns);
    }
    SvnParsed {
        modified,
        untracked,
        conflicts,
        is_clean: modified == 0 && untracked == 0 && conflicts == 0,
    }
}

/// A working copy is clean exactly when nothing is modified, untracked or in
/// conflict.
pub proof fn law_svn_clean_iff_no_changes(text: Seq<char>)
    requires
        lines(text).len() <= u32::MAX,
    ensures
        svn_status(text).is_clean <==> (svn_status(text).modified == 0 && svn_status(text).untracked
            == 0 && svn_status(text).conflicts == 0),
{
    let ls = lines(text);
    lemma_count_where_bound(ls, |l: Seq<char>| svn_modified_line(l));
    lemma_count_where_bound(ls, |l: Seq<char>| svn_untracked_line(l));
    lemma_count_where_bound(ls, |l: Seq<char>| svn_conflict_line(l));
}

/// The counts of `svn status`: over the non-blank lines, a first column of
/// `M A D R ! ~` is a modification, `?` an untracked file and `C` a conflict;
/// a first column with no meaning of its own (anything but those and `I`,
/// `X`) leaves it to the property column, where `M` is a modification and
/// `C` a conflict (that column read as the line's second byte).
pub proof fn law_svn_counts(text: Seq<char>)
    ensures
        svn_status(text).modified == count_where(
            lines(text),
            |l: Seq<char>|
                trim(l).len() > 0 && ({
                    let c = l[0];
                    c == 'M' || c == 'A' || c == 'D' || c == 'R' || c == '!' || c == '~' || (c
                        != 'M' && c != 'A' && c != 'D' && c != 'R' && c != '!' && c != '~' && c
                        != '?' && c != 'C' && c != 'I' && c != 'X' && (c as u32) < 0x80 && l.len()
                        >= 2 && l[1] == 'M')
                }),
        ) as u32,
        svn_status(text).untracked == count_where(
            lines(text),
            |l: Seq<char>| trim(l).len() > 0 && l[0] == '?',
        ) as u32,
        svn_status(text).conflicts == count_where(
            lines(text),
            |l: Seq<char>|
                trim(l).len() > 0 && ({
                    let c = l[0];
                    c == 'C' || (c != 'M' && c != 'A' && c != 'D' && c != 'R' && c != '!' && c
                        != '~' && c != '?' && c != 'C' && c != 'I' && c != 'X' && (c as u32)
                        < 0x80 && l.len() >= 2 && l[1] == 'C')
                }),
        ) as u32,
{
    let ls = lines(text);
    let pm = |l: Seq<char>|
        trim(l).len() > 0 && ({
            let c = l[0];
            c == 'M' || c == 'A' || c == 'D' || c == 'R' || c == '!' || c == '~' || (c != 'M' && c
                != 'A' && c != 'D' && c != 'R' && c != '!' && c != '~' && c != '?' && c != 'C' && c
                != 'I' && c != 'X' && (c as u32) < 0x80 && l.len() >= 2 && l[1] == 'M')
        });
    let pu = |l: Seq<char>| trim(l).len() > 0 && l[0] == '?';
    let pc = |l: Seq<char>|
        trim(l).len() > 0 && ({
            let c = l[0];
            c == 'C' || (c != 'M' && c != 'A' && c != 'D' && c != 'R' && c != '!' && c != '~' && c
                != '?' && c != 'C' && c != 'I' && c != 'X' && (c as u32) < 0x80 && l.len() >= 2
                && l[1] == 'C')
        });
    assert forall|k: int| 0 <= k < ls.len() implies svn_modified_line(#[trigger] ls[k]) == pm(ls[k])
        && svn_untracked_line(ls[k]) == pu(ls[k]) && svn_conflict_line(ls[k]) == pc(ls[k]) by {}
    lemma_count_where_ext(ls, |l: Seq<char>| svn_modified_line(l), pm);
    lemma_count_where_ext(ls, |l: Seq<char>| svn_untracked_line(l), pu);
    lemma_count_where_ext(ls, |l: Seq<char>| svn_conflict_line(l), pc);
}

/// One more conflicted line (first column `C`) is one more conflict, one
/// more `?` line one more untracked file, and neither changes the other
/// counts.
pub proof fn law_svn_one_more_line(t1: Seq<char>, t2: Seq<char>, l: Seq<char>)
    requires
        lines(t2) == lines(t1).push(l),
        lines(t2).len() <= u32::MAX,
        l.len() > 0,
        l[0] == 'C' || l[0] == '?',
    ensures
        l[0] == 'C' ==> svn_status(t2).conflicts == svn_status(t1).conflicts + 1
            && svn_status(t2).untracked == svn_status(t1).untracked,
        l[0] == '?' ==> svn_status(t2).untracked == svn_status(t1).untracked + 1
            && svn_status(t2).conflicts == svn_status(t1).conflicts,
        svn_status(t2).modified == svn_status(t1).modified,
{
    law_svn_counts(t1);
    law_svn_counts(t2);
    assert(!is_ws(l[0]));
    lemma_trim_keeps_first(l);
    lemma_count_where_push(lines(t1), l, |l: Seq<char>| svn_modified_line(l));
    lemma_count_where_push(lines(t1), l, |l: Seq<char>| svn_untracked_line(l));
    lemma_count_where_push(lines(t1), l, |l: Seq<char>| svn_conflict_line(l));
    lemma_count_where_bound(lines(t2), |l: Seq<char>| svn_modified_line(l));
    lemma_count_where_bound(lines(t2), |l: Seq<char>| svn_untracked_line(l));
    lemma_count_where_bound(lines(t2), |l: Seq<char>| svn_conflict_line(l));
}

/// A line is counted at most once: as a modification, an untracked file or
/// a conflict.
pub proof fn law_svn_line_counted_once(l: Seq<char>)
    ensures
        !(svn_modified_line(l) && svn_untracked_line(l)),
        !(svn_modified_line(l) && svn_conflict_line(l)),
        !(svn_untracked_line(l) && svn_conflict_line(l)),
{
}

/// The branch of a working copy from its repository-relative URL:
/// `^/trunk/..` is `trunk`, `^/branches/<b>/..` is `<b>`,
/// `^/tags/<t>/..` is `tags/<t>`, anything else its first segment, and the
/// repository root none.
pub open spec fn branch_of_url(u: Seq<char>) -> Option<Seq<char>> {
    let s = strip_all_prefix(strip_all_prefix(trim(u), "^/"@), "/"@);
    if s.len() == 0 {
        None
    } else {
        let parts = split_on(s, '/');
        if parts[0] == "trunk"@ {
            Some("trunk"@)
        } else if parts[0] == "branches"@ && parts.len() >= 2 {
            Some(parts[1])
        } else if parts[0] == "tags"@ && parts.len() >= 2 {
            Some("tags/"@ + parts[1])
        } else {
            Some(parts[0])
        }
    }
}

/// Removes every leading copy of the literal `p` (non-empty) from `s`.
fn strip_all(s: Vec<char>, p: &str) -> (r: Vec<char>)
    requires
        p@.len() > 0,
    ensures
        r@ == strip_all_prefix(s@, p@),
{
    let pv = chars_of(p);
    let mut cur = s;
    while has_prefix_str(&cur, p)
        invariant
            pv@ == p@,
            p@.len() > 0,
            strip_all_prefix(cur@, p@) == strip_all_prefix(s@, p@),
        decreases cur@.len(),
    {
        let next = sub_chars(&cur, pv.len(), cur.len());
        assert(next@ =~= cur@.skip(p@.len() as int));
        cur = next;
    }
    cur
}

/// The index of the first `'/'` in `v`, or its length.
fn find_slash(v: &Vec<char>) -> (k: usize)
    ensures
        k == find_char(v@, '/'),
        k <= v@.len(),
{
    let n = v.len();
    let mut k: usize = 0;
    while k < n && v[k] != '/'
        invariant
            k <= n,
            n == v@.len(),
            forall|j: int| 0 <= j < k ==> v@[j] != '/',
        decreases n - k,
    {
        k += 1;
    }
    proof {
        lemma_find_char_is(v@, '/', k as int);
    }
    k
}

/// Branch name from the output of `svn info --show-item relative-url`.
pub fn svn_branch(relurl: &str) -> (r: Option<String>)
    ensures
        opt_str(r) == branch_of_url(relurl@),
{
    proof {
        reveal_strlit("^/");
        reveal_strlit("/");
    }
    let cs = chars_of(relurl);
    let t = trim_chars(&cs);
    let s1 = strip_all(t, "^/");
    let s = strip_all(s1, "/");
    if s.len() == 0 {
        return None;
    }
    let k0 = find_slash(&s);
    let part0 = sub_chars(&s, 0, k0);
    let ghost parts = split_on(s@, '/');
    assert(parts[0] == part0@) by {
        assert(part0@ =~= s@.take(k0 as int));
    }
    let second: Option<Vec<char>> = if k0 < s.len() {
        let rest = sub_chars(&s, k0 + 1, s.len());
        let k1 = find_slash(&rest);
        let part1 = sub_chars(&rest, 0, k1);
        proof {
            assert(rest@ =~= s@.skip(k0 + 1));
            assert(part1@ =~= rest@.take(k1 as int));
            lemma_split_on_nonempty(rest@, '/');
            assert(parts.len() >= 2);
            assert(parts[1] == split_on(rest@, '/')[0]);
        }
        Some(part1)
    } else {
        assert(parts.len() == 1);
        None
    };
    if chars_eq_str(&part0, "trunk") {
        Some(string_from_chars(&part0))
    } else if chars_eq_str(&part0, "branches") && second.is_some() {
        match second {
            Some(b) => Some(string_from_chars(&b)),
            None => None,
        }
    } else if chars_eq_str(&part0, "tags") && second.is_some() {
        match second {
            Some(b) => {
                let mut out = chars_of("tags/");
                let ghost base = out@;
                let n = b.len();
                for i in 0..n
                    invariant
                        n == b@.len(),
                        out@ == base + b@.take(i as int),
                {
                    out.push(b[i]);
                    assert(out@ =~= base + b@.take(i + 1));
                }
                assert(b@.take(n as int) =~= b@);
                Some(string_from_chars(&out))
            },
            None => None,
        }
    } else {
        Some(string_from_chars(&part0))
    }
}

/// The status of a Subversion working copy given the results of `svn status`
/// and `svn info --show-item relative-url`.
pub open spec fn svn_status_of(
    repo: RepoRefView,
    now: i64,
    status: Result<Seq<char>, Seq<char>>,
    info: Result<Seq<char>, Seq<char>>,
) -> RepoStatusView {
    let base = RepoStatusView { has_upstream: true, ..placeholder(repo, now) };
    match status {
        Err(e) => RepoStatusView { error: Some(e), ..base },
        Ok(t) => {
            let p = svn_status(t);
            RepoStatusView {
                modified: p.modified,
                untracked: p.untracked,
                conflicts: p.conflicts,
                is_clean: p.is_clean,
                branch: match info {
                    Ok(u) => branch_of_url(u),
                    Err(_) => None,
                },
                ..base
            }
        },
    }
}

/// Fills the status of a Subversion working copy at `now` from the result of
/// `svn status` and, when that succeeded, of `svn info --show-item
/// relative-url` (`info` is not read when `status` failed).
pub fn read_svn_status(
    repo: &RepoRef,
    now: i64,
    status: &Result<String, String>,
    info: &Result<String, String>,
) -> (r: RepoStatus)
    requires
        status matches Ok(t) ==> lines(t@).len() <= u32::MAX,
    ensures
        r@ == svn_status_of(repo@, now, outcome(*status), outcome(*info)),
{
    let mut st = RepoStatus::from_ref(repo, now);
    st.has_upstream = true;
    match status {
        Ok(text) => {
            let p = parse_svn_status(text.as_str());
            st.modified = p.modified;
            st.untracked = p.untracked;
            st.conflicts = p.conflicts;
            st.is_clean = p.is_clean;
            if let Ok(relurl) = info {
                st.branch = svn_branch(relurl.as_str());
            }
        },
        Err(e) => {
            st.error = Some(e.clone());
        },
    }
    st
}

/// A relative URL `^/<a><tail>` with no whitespace, whose first segment `a`
/// holds no `/` and does not start with `^`, loses exactly its `^/`.
proof fn lemma_url_stripped(a: Seq<char>, tail: Seq<char>)
    requires
        a.len() > 0,
        a[0] != '^',
        forall|i: int| 0 <= i < a.len() ==> a[i] != '/' && !is_ws(#[trigger] a[i]),
        forall|i: int| 0 <= i < tail.len() ==> !is_ws(#[trigger] tail[i]),
    ensures
        strip_all_prefix(strip_all_prefix(trim("^/"@ + a + tail), "^/"@), "/"@) == a + tail,
{
    reveal_strlit("^/");
    reveal_strlit("/");
    let u = "^/"@ + a + tail;
    assert forall|i: int| 0 <= i < u.len() implies !is_ws(#[trigger] u[i]) by {
        if i < 2 {
            assert(u[i] == '^' || u[i] == '/');
        } else if i < 2 + a.len() {
            assert(u[i] == a[i - 2]);
        } else {
            assert(u[i] == tail[i - 2 - a.len()]);
        }
    }
    lemma_trim_unchanged(u);
    let s1 = u.skip(2);
    assert(s1 =~= a + tail);
    assert(u.take(2) =~= "^/"@);
    assert(strip_all_prefix(u, "^/"@) == strip_all_prefix(s1, "^/"@));
    assert(s1[0] == a[0]);
    assert(!starts_with(s1, "^/"@)) by {
        if starts_with(s1, "^/"@) {
            assert(s1.take(2)[0] == s1[0]);
        }
    }
    assert(!starts_with(s1, "/"@)) by {
        if starts_with(s1, "/"@) {
            assert(s1.take(1)[0] == s1[0]);
        }
    }
}

/// Splitting `<a><tail>` on `/`, where `a` holds no `/` and `tail` is empty
/// or starts with `/`, gives `a` first, then the parts of what follows.
proof fn lemma_split_first(a: Seq<char>, tail: Seq<char>)
    requires
        forall|i: int| 0 <= i < a.len() ==> a[i] != '/',
        tail.len() == 0 || tail[0] == '/',
    ensures
        tail.len() == 0 ==> split_on(a + tail, '/') == seq![a],
        tail.len() > 0 ==> split_on(a + tail, '/') == seq![a] + split_on(tail.skip(1), '/'),
{
    let s = a + tail;
    assert forall|j: int| 0 <= j < a.len() implies s[j] != '/' by {
        assert(s[j] == a[j]);
    }
    if tail.len() > 0 {
        assert(s[a.len() as int] == tail[0]);
    }
    lemma_find_char_is(s, '/', a.len() as int);
    assert(s.take(a.len() as int) =~= a);
    if tail.len() == 0 {
        assert(s =~= a);
    } else {
        assert(s.skip(a.len() as int + 1) =~= tail.skip(1));
    }
}

/// The branch of `svn info --show-item relative-url`: `^/trunk...` is
/// `trunk`, `^/branches/<b>...` is `<b>`, `^/tags/<t>...` is `tags/<t>`, any
/// other URL is named by its first segment (also `branches` or `tags`
/// alone). Stated for URLs without whitespace whose segments hold no `/`
/// and whose first segment does not start with `^`.
pub proof fn law_svn_branch_names(a: Seq<char>, b: Seq<char>, rest: Seq<char>)
    requires
        a.len() > 0,
        b.len() > 0,
        a[0] != '^',
        forall|i: int| 0 <= i < a.len() ==> a[i] != '/' && !is_ws(#[trigger] a[i]),
        forall|i: int| 0 <= i < b.len() ==> b[i] != '/' && !is_ws(#[trigger] b[i]),
        forall|i: int| 0 <= i < rest.len() ==> !is_ws(#[trigger] rest[i]),
        rest.len() == 0 || rest[0] == '/',
    ensures
        branch_of_url("^/"@ + a + ("/"@ + b + rest)) == if a == "trunk"@ {
            Some("trunk"@)
        } else if a == "branches"@ {
            Some(b)
        } else if a == "tags"@ {
            Some("tags/"@ + b)
        } else {
            Some(a)
        },
        branch_of_url("^/"@ + a) == Some(a),
{
    reveal_strlit("/");
    let tail = "/"@ + b + rest;
    assert forall|i: int| 0 <= i < tail.len() implies !is_ws(#[trigger] tail[i]) by {
        if i == 0 {
            assert(tail[i] == '/');
        } else if i < 1 + b.len() {
            assert(tail[i] == b[i - 1]);
        } else {
            assert(tail[i] == rest[i - 1 - b.len()]);
        }
    }
    lemma_url_stripped(a, tail);
    lemma_split_first(a, tail);
    assert(tail.skip(1) =~= b + rest);
    lemma_split_first(b, rest);
    let e = Seq::<char>::empty();
    lemma_url_stripped(a, e);
    assert("^/"@ + a + e =~= "^/"@ + a);
    assert(a + e =~= a);
    lemma_split_first(a, e);
}

/// A Subversion status keeps the repository's identity and the time of the
/// check, and always counts as having an upstream (the repository server),
/// with nothing staged, no stash, ahead/behind, operation or last fetch and a
/// single worktree. When `svn status` succeeded, the counts and the clean
/// flag come from its output and the branch from `svn info` (none when that
/// failed); when it failed, the status carries its error and shows no
/// changes.
pub proof fn law_svn_status_fields(
    repo: RepoRefView,
    now: i64,
    status: Result<Seq<char>, Seq<char>>,
    info: Result<Seq<char>, Seq<char>>,
)
    ensures
        ({
            let r = svn_status_of(repo, now, status, info);
            &&& r.path == repo.path && r.name == repo.name && r.category == repo.category && r.vcs
                == repo.vcs
            &&& r.last_checked == now && r.has_upstream
            &&& r.staged == 0 && r.stash == 0 && r.ahead is None && r.behind is None
            &&& r.detached_sha is None && r.upstream is None
            &&& r.state == RepoState::Clean && r.worktrees == 1 && r.last_fetch is None
            &&& status matches Ok(t) ==> {
                &&& r.error is None
                &&& r.modified == svn_status(t).modified && r.untracked == svn_status(t).untracked
                    && r.conflicts == svn_status(t).conflicts && r.is_clean == svn_status(
                    t,
                ).is_clean
                &&& info matches Ok(u) ==> r.branch == branch_of_url(u)
                &&& info is Err ==> r.branch is None
            }
            &&& status matches Err(e) ==> {
                &&& r.error == Some(e) && r.branch is None
                &&& r.modified == 0 && r.untracked == 0 && r.conflicts == 0 && r.is_clean
            }
        }),
{
}

} // verus!
