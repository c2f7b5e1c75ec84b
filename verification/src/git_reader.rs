//! Reading the status of a git working copy.
//!
//! The commands themselves run outside the library; it receives their output
//! and turns it into a [`RepoStatus`].
use vstd::prelude::*;
use crate::model::{opt_str, RepoRef, RepoRefView, RepoState, RepoStatus, RepoStatusView, placeholder};
use crate::text::{
    chars_eq_str, chars_of, count_where, has_prefix_str, lemma_count_where_bound,
    lemma_count_where_push, lemma_count_where_zero, lemma_count_where_ext, lemma_starts_with_first, lines, all_digits, digits_value, is_digit, parse_u32_chars, parse_u32_or_zero,
    split_lines, split_words, starts_with, string_from_chars, strip_prefix_str, sub_chars, trim, trim_chars, words,
};

verus! {

/// What one `git status --porcelain=v2 --branch` output says about the
/// branch, its upstream and the working tree.
#[derive(Debug, PartialEq, Eq)]
pub struct ParsedStatus {
    pub branch: Option<String>,
    pub detached_sha: Option<String>,
    pub upstream: Option<String>,
    pub has_upstream: bool,
    pub ahead: Option<u32>,
    pub behind: Option<u32>,
    pub staged: u32,
    pub modified: u32,
    pub untracked: u32,
    pub conflicts: u32,
    pub is_clean: bool,
}

/// Mathematical view of a [`ParsedStatus`].
pub struct ParsedStatusView {
    pub branch: Option<Seq<char>>,
    pub detached_sha: Option<Seq<char>>,
    pub upstream: Option<Seq<char>>,
    pub has_upstream: bool,
    pub ahead: Option<u32>,
    pub behind: Option<u32>,
    pub staged: u32,
    pub modified: u32,
    pub untracked: u32,
    pub conflicts: u32,
    pub is_clean: bool,
}

impl View for ParsedStatus {
    type V = ParsedStatusView;

    open spec fn view(&self) -> ParsedStatusView {
        ParsedStatusView {
            branch: opt_str(self.branch),
            detached_sha: opt_str(self.detached_sha),
            upstream: opt_str(self.upstream),
            has_upstream: self.has_upstream,
            ahead: self.ahead,
            behind: self.behind,
            staged: self.staged,
            modified: self.modified,
            untracked: self.untracked,
            conflicts: self.conflicts,
            is_clean: self.is_clean,
        }
    }
}

/// The kind of a porcelain v2 line, tested in this order; the header kinds
/// carry the text after their prefix.
pub enum PorcelainLine {
    Oid(Seq<char>),
    Head(Seq<char>),
    Upstream(Seq<char>),
    Ab(Seq<char>),
    Entry,
    Conflict,
    Untracked,
    Other,
}

pub open spec fn classify(l: Seq<char>) -> PorcelainLine {
    if starts_with(l, "# branch.oid "@) {
        PorcelainLine::Oid(l.skip("# branch.oid "@.len() as int))
    } else if starts_with(l, "# branch.head "@) {
        PorcelainLine::Head(l.skip("# branch.head "@.len() as int))
    } else if starts_with(l, "# branch.upstream "@) {
        PorcelainLine::Upstream(l.skip("# branch.upstream "@.len() as int))
    } else if starts_with(l, "# branch.ab "@) {
        PorcelainLine::Ab(l.skip("# branch.ab "@.len() as int))
    } else if starts_with(l, "1 "@) || starts_with(l, "2 "@) {
        PorcelainLine::Entry
    } else if starts_with(l, "u "@) {
        PorcelainLine::Conflict
    } else if starts_with(l, "? "@) {
        PorcelainLine::Untracked
    } else {
        PorcelainLine::Other
    }
}

pub open spec fn oid_rest(l: Seq<char>) -> Option<Seq<char>> {
    match classify(l) {
        PorcelainLine::Oid(r) => Some(r),
        _ => None,
    }
}

pub open spec fn head_rest(l: Seq<char>) -> Option<Seq<char>> {
    match classify(l) {
        PorcelainLine::Head(r) => Some(r),
        _ => None,
    }
}

pub open spec fn upstream_rest(l: Seq<char>) -> Option<Seq<char>> {
    match classify(l) {
        PorcelainLine::Upstream(r) => Some(r),
        _ => None,
    }
}

pub open spec fn ab_rest(l: Seq<char>) -> Option<Seq<char>> {
    match classify(l) {
        PorcelainLine::Ab(r) => Some(r),
        _ => None,
    }
}

/// What `f` gives for the last line of `ls` for which it gives something.
pub open spec fn last_some(ls: Seq<Seq<char>>, f: spec_fn(Seq<char>) -> Option<Seq<char>>) -> Option<
    Seq<char>,
>
    decreases ls.len(),
{
    if ls.len() == 0 {
        None
    } else {
        match f(ls.last()) {
            Some(r) => Some(r),
            None => last_some(ls.drop_last(), f),
        }
    }
}

pub open spec fn opt_trim(o: Option<Seq<char>>) -> Option<Seq<char>> {
    match o {
        Some(r) => Some(trim(r)),
        None => None,
    }
}

/// A `# branch.head` line naming a detached HEAD.
pub open spec fn is_detached_head(l: Seq<char>) -> bool {
    match head_rest(l) {
        Some(r) => trim(r) == "(detached)"@,
        None => false,
    }
}

/// The branch named by the last `# branch.head` line, unless it is detached.
pub open spec fn branch_of(ls: Seq<Seq<char>>) -> Option<Seq<char>> {
    match opt_trim(last_some(ls, |l: Seq<char>| head_rest(l))) {
        Some(v) => if v == "(detached)"@ {
            None
        } else {
            Some(v)
        },
        None => None,
    }
}

/// The value after the sign of the last token that starts with `sign`
/// (0 when there is none or it does not parse).
pub open spec fn last_signed(toks: Seq<Seq<char>>, sign: char) -> u32
    decreases toks.len(),
{
    if toks.len() == 0 {
        0
    } else {
        let t = toks.last();
        if t.len() > 0 && t[0] == sign {
            parse_u32_or_zero(t.drop_first())
        } else {
            last_signed(toks.drop_last(), sign)
        }
    }
}

/// `(ahead, behind)` from the last `# branch.ab` line.
pub open spec fn ab_of(ls: Seq<Seq<char>>) -> Option<(u32, u32)> {
    match last_some(ls, |l: Seq<char>| ab_rest(l)) {
        Some(r) => Some((last_signed(words(r), '+'), last_signed(words(r), '-'))),
        None => None,
    }
}

/// The UTF-8 encoding of the XY token is at least two bytes long.
pub open spec fn xy_wide(t: Seq<char>) -> bool {
    t.len() >= 2 || (t.len() == 1 && (t[0] as u32) >= 0x80)
}

/// First byte of the XY token is not `'.'`: a staged change.
pub open spec fn xy_staged(t: Seq<char>) -> bool {
    xy_wide(t) && t[0] != '.'
}

/// Second byte of the XY token is not `'.'`: an unstaged change.
pub open spec fn xy_modified(t: Seq<char>) -> bool {
    xy_wide(t) && !((t[0] as u32) < 0x80 && t[1] == '.')
}

/// An ordinary or renamed entry (`1 ` / `2 `) whose XY code has a staged change.
pub open spec fn staged_line(l: Seq<char>) -> bool {
    classify(l) is Entry && words(l).len() >= 2 && xy_staged(words(l)[1])
}

/// An ordinary or renamed entry whose XY code has an unstaged change.
pub open spec fn modified_line(l: Seq<char>) -> bool {
    classify(l) is Entry && words(l).len() >= 2 && xy_modified(words(l)[1])
}

/// An unmerged entry (`u `).
pub open spec fn conflict_line(l: Seq<char>) -> bool {
    classify(l) is Conflict
}

/// An untracked entry (`? `).
pub open spec fn untracked_line(l: Seq<char>) -> bool {
    classify(l) is Untracked
}

/// An entry line of any kind (`1 `, `2 `, `u ` or `? `): the working tree
/// has a change.
pub open spec fn change_line(l: Seq<char>) -> bool {
    classify(l) is Entry || classify(l) is Conflict || classify(l) is Untracked
}

/// What `git status --porcelain=v2 --branch` output `text` says.
pub open spec fn porcelain(text: Seq<char>) -> ParsedStatusView {
    let ls = lines(text);
    let staged = count_where(ls, |l: Seq<char>| staged_line(l));
    let modified = count_where(ls, |l: Seq<char>| modified_line(l));
    let untracked = count_where(ls, |l: Seq<char>| untracked_line(l));
    let conflicts = count_where(ls, |l: Seq<char>| conflict_line(l));
    let oid = opt_trim(last_some(ls, |l: Seq<char>| oid_rest(l)));
    let upstream = opt_trim(last_some(ls, |l: Seq<char>| upstream_rest(l)));
    let detached = count_where(ls, |l: Seq<char>| is_detached_head(l)) > 0;
    ParsedStatusView {
        branch: branch_of(ls),
        detached_sha: match oid {
            Some(o) => if detached && !(o.len() > 0 && o[0] == '(') {
                Some(o)
            } else {
                None
            },
            None => None,
        },
        upstream: upstream,
        has_upstream: upstream is Some,
        ahead: match ab_of(ls) {
            Some(p) => Some(p.0),
            None => None,
        },
        behind: match ab_of(ls) {
            Some(p) => Some(p.1),
            None => None,
        },
        staged: staged as u32,
        modified: modified as u32,
        untracked: untracked as u32,
        conflicts: conflicts as u32,
        is_clean: count_where(ls, |l: Seq<char>| change_line(l)) == 0,
    }
}

/// A working tree is clean exactly when no line of the output is an entry
/// (`1 `, `2 `, `u ` or `? `); then nothing is staged, modified, untracked or
/// in conflict.
pub proof fn law_clean_iff_no_changes(text: Seq<char>)
    ensures
        porcelain(text).is_clean <==> (forall|k: int|
            0 <= k < lines(text).len() ==> !change_line(#[trigger] lines(text)[k])),
        porcelain(text).is_clean ==> porcelain(text).staged == 0 && porcelain(text).modified == 0
            && porcelain(text).untracked == 0 && porcelain(text).conflicts == 0,
{
    let ls = lines(text);
    lemma_count_where_zero(ls, |l: Seq<char>| change_line(l));
    if porcelain(text).is_clean {
        lemma_count_where_zero(ls, |l: Seq<char>| staged_line(l));
        lemma_count_where_zero(ls, |l: Seq<char>| modified_line(l));
        lemma_count_where_zero(ls, |l: Seq<char>| untracked_line(l));
        lemma_count_where_zero(ls, |l: Seq<char>| conflict_line(l));
    }
}

/// An upstream is reported exactly when its name is, and ahead and behind
/// are reported together.
pub proof fn law_upstream_and_ab_consistent(text: Seq<char>)
    ensures
        porcelain(text).has_upstream <==> porcelain(text).upstream is Some,
        porcelain(text).ahead is Some <==> porcelain(text).behind is Some,
{
}

/// A detached SHA is reported only when a `# branch.head (detached)` line
/// was seen, and it never starts with `(` (as `(initial)` would).
pub proof fn law_detached_sha_only_when_detached(text: Seq<char>)
    ensures
        porcelain(text).detached_sha matches Some(o) ==> count_where(
            lines(text),
            |l: Seq<char>| is_detached_head(l),
        ) > 0 && !(o.len() > 0 && o[0] == '('),
{
}

/// Some line of `ls` makes `f` give something exactly when `last_some`
/// finds one.
pub proof fn lemma_last_some_found(ls: Seq<Seq<char>>, f: spec_fn(Seq<char>) -> Option<Seq<char>>)
    ensures
        last_some(ls, f) is Some <==> exists|k: int| 0 <= k < ls.len() && #[trigger] f(ls[k]) is Some,
    decreases ls.len(),
{
    if ls.len() > 0 {
        let init = ls.drop_last();
        lemma_last_some_found(init, f);
        if last_some(ls, f) is Some {
            if f(ls.last()) is Some {
                assert(f(ls[ls.len() - 1]) is Some);
            } else {
                let k = choose|k: int| 0 <= k < init.len() && #[trigger] f(init[k]) is Some;
                assert(init[k] == ls[k]);
            }
        }
        if exists|k: int| 0 <= k < ls.len() && #[trigger] f(ls[k]) is Some {
            let k = choose|k: int| 0 <= k < ls.len() && #[trigger] f(ls[k]) is Some;
            if k < init.len() {
                assert(init[k] == ls[k]);
            }
        }
    }
}

/// A line satisfying `p` is counted.
pub proof fn lemma_count_where_pos(ls: Seq<Seq<char>>, p: spec_fn(Seq<char>) -> bool, k: int)
    requires
        0 <= k < ls.len(),
        p(ls[k]),
    ensures
        count_where(ls, p) >= 1,
    decreases ls.len(),
{
    if k < ls.len() - 1 {
        assert(ls.drop_last()[k] == ls[k]);
        lemma_count_where_pos(ls.drop_last(), p, k);
    }
}

/// A `# branch.head` line of the output.
pub open spec fn head_line(l: Seq<char>) -> bool {
    classify(l) is Head
}

/// With a single `# branch.head` line, the last one is that line.
pub proof fn lemma_single_head(ls: Seq<Seq<char>>, k: int)
    requires
        0 <= k < ls.len(),
        head_line(ls[k]),
        count_where(ls, |l: Seq<char>| head_line(l)) <= 1,
    ensures
        last_some(ls, |l: Seq<char>| head_rest(l)) == head_rest(ls[k]),
    decreases ls.len(),
{
    let init = ls.drop_last();
    if k < ls.len() - 1 {
        assert(init[k] == ls[k]);
        lemma_count_where_pos(init, |l: Seq<char>| head_line(l), k);
        lemma_single_head(init, k);
    }
}

/// The upstream is reported exactly when a `# branch.upstream` line is
/// present, ahead and behind exactly when a `# branch.ab` line is; with a
/// single `# branch.head` line, a detached SHA comes with no branch.
pub proof fn law_header_lines_reported(text: Seq<char>)
    ensures
        porcelain(text).has_upstream <==> exists|k: int|
            0 <= k < lines(text).len() && #[trigger] classify(lines(text)[k]) is Upstream,
        porcelain(text).ahead is Some <==> exists|k: int|
            0 <= k < lines(text).len() && #[trigger] classify(lines(text)[k]) is Ab,
        porcelain(text).behind is Some <==> exists|k: int|
            0 <= k < lines(text).len() && #[trigger] classify(lines(text)[k]) is Ab,
        count_where(lines(text), |l: Seq<char>| head_line(l)) <= 1 && porcelain(text).detached_sha
            is Some ==> porcelain(text).branch is None,
{
    let ls = lines(text);
    let fu = |l: Seq<char>| upstream_rest(l);
    let fa = |l: Seq<char>| ab_rest(l);
    lemma_last_some_found(ls, fu);
    lemma_last_some_found(ls, fa);
    if last_some(ls, fu) is Some {
        let k = choose|k: int| 0 <= k < ls.len() && #[trigger] fu(ls[k]) is Some;
        assert(classify(ls[k]) is Upstream);
    }
    if last_some(ls, fa) is Some {
        let k = choose|k: int| 0 <= k < ls.len() && #[trigger] fa(ls[k]) is Some;
        assert(classify(ls[k]) is Ab);
    }
    if exists|k: int| 0 <= k < ls.len() && #[trigger] classify(ls[k]) is Upstream {
        let k = choose|k: int| 0 <= k < ls.len() && #[trigger] classify(ls[k]) is Upstream;
        assert(fu(ls[k]) is Some);
    }
    if exists|k: int| 0 <= k < ls.len() && #[trigger] classify(ls[k]) is Ab {
        let k = choose|k: int| 0 <= k < ls.len() && #[trigger] classify(ls[k]) is Ab;
        assert(fa(ls[k]) is Some);
    }
    if count_where(ls, |l: Seq<char>| head_line(l)) <= 1 && porcelain(text).detached_sha is Some {
        lemma_count_where_zero(ls, |l: Seq<char>| is_detached_head(l));
        let k = choose|k: int| 0 <= k < ls.len() && is_detached_head(#[trigger] ls[k]);
        lemma_single_head(ls, k);
    }
}

/// The kind of a line follows from its first characters: `? ` untracked,
/// `u ` unmerged, `1 `/`2 ` an ordinary or renamed entry (no header line
/// starts like these).
pub proof fn lemma_entry_kinds(l: Seq<char>)
    ensures
        classify(l) is Untracked <==> starts_with(l, "? "@),
        classify(l) is Conflict <==> starts_with(l, "u "@),
        classify(l) is Entry <==> (starts_with(l, "1 "@) || starts_with(l, "2 "@)),
{
    reveal_strlit("# branch.oid ");
    reveal_strlit("# branch.head ");
    reveal_strlit("# branch.upstream ");
    reveal_strlit("# branch.ab ");
    reveal_strlit("1 ");
    reveal_strlit("2 ");
    reveal_strlit("u ");
    reveal_strlit("? ");
    if starts_with(l, "# branch.oid "@) {
        lemma_starts_with_first(l, "# branch.oid "@);
    }
    if starts_with(l, "# branch.head "@) {
        lemma_starts_with_first(l, "# branch.head "@);
    }
    if starts_with(l, "# branch.upstream "@) {
        lemma_starts_with_first(l, "# branch.upstream "@);
    }
    if starts_with(l, "# branch.ab "@) {
        lemma_starts_with_first(l, "# branch.ab "@);
    }
    if starts_with(l, "1 "@) {
        lemma_starts_with_first(l, "1 "@);
    }
    if starts_with(l, "2 "@) {
        lemma_starts_with_first(l, "2 "@);
    }
    if starts_with(l, "u "@) {
        lemma_starts_with_first(l, "u "@);
    }
    if starts_with(l, "? "@) {
        lemma_starts_with_first(l, "? "@);
    }
}

/// Every line that starts with `? ` is one untracked file, and every line
/// that starts with `u ` one conflict: the counts are the numbers of such
/// lines.
pub proof fn law_untracked_and_conflicts_counted(text: Seq<char>)
    ensures
        porcelain(text).untracked == count_where(
            lines(text),
            |l: Seq<char>| starts_with(l, "? "@),
        ) as u32,
        porcelain(text).conflicts == count_where(
            lines(text),
            |l: Seq<char>| starts_with(l, "u "@),
        ) as u32,
{
    let ls = lines(text);
    assert forall|k: int| 0 <= k < ls.len() implies untracked_line(#[trigger] ls[k]) == starts_with(
        ls[k],
        "? "@,
    ) && conflict_line(ls[k]) == starts_with(ls[k], "u "@) by {
        lemma_entry_kinds(ls[k]);
    }
    lemma_count_where_ext(
        ls,
        |l: Seq<char>| untracked_line(l),
        |l: Seq<char>| starts_with(l, "? "@),
    );
    lemma_count_where_ext(
        ls,
        |l: Seq<char>| conflict_line(l),
        |l: Seq<char>| starts_with(l, "u "@),
    );
}

/// An entry line (`1 ` or `2 `) whose XY code (its second word) is at least
/// two bytes long counts as staged when the first byte is not `.`, and as
/// modified when the second byte is not `.`.
pub proof fn law_entries_counted(text: Seq<char>)
    ensures
        porcelain(text).staged == count_where(
            lines(text),
            |l: Seq<char>|
                (starts_with(l, "1 "@) || starts_with(l, "2 "@)) && words(l).len() >= 2 && ({
                    let xy = words(l)[1];
                    (xy.len() >= 2 || (xy.len() == 1 && (xy[0] as u32) >= 0x80)) && xy[0] != '.'
                }),
        ) as u32,
        porcelain(text).modified == count_where(
            lines(text),
            |l: Seq<char>|
                (starts_with(l, "1 "@) || starts_with(l, "2 "@)) && words(l).len() >= 2 && ({
                    let xy = words(l)[1];
                    (xy.len() >= 2 && !((xy[0] as u32) < 0x80 && xy[1] == '.')) || (xy.len() == 1
                        && (xy[0] as u32) >= 0x80)
                }),
        ) as u32,
{
    let ls = lines(text);
    let ps = |l: Seq<char>|
        (starts_with(l, "1 "@) || starts_with(l, "2 "@)) && words(l).len() >= 2 && ({
            let xy = words(l)[1];
            (xy.len() >= 2 || (xy.len() == 1 && (xy[0] as u32) >= 0x80)) && xy[0] != '.'
        });
    let pm = |l: Seq<char>|
        (starts_with(l, "1 "@) || starts_with(l, "2 "@)) && words(l).len() >= 2 && ({
            let xy = words(l)[1];
            (xy.len() >= 2 && !((xy[0] as u32) < 0x80 && xy[1] == '.')) || (xy.len() == 1 && (
            xy[0] as u32) >= 0x80)
        });
    assert forall|k: int| 0 <= k < ls.len() implies staged_line(#[trigger] ls[k]) == ps(ls[k])
        && modified_line(ls[k]) == pm(ls[k]) by {
        lemma_entry_kinds(ls[k]);
    }
    lemma_count_where_ext(ls, |l: Seq<char>| staged_line(l), ps);
    lemma_count_where_ext(ls, |l: Seq<char>| modified_line(l), pm);
}

/// One more `? ` line in the output is one more untracked file, and one
/// more `u ` line one more conflict.
pub proof fn law_one_more_line_counts_once(t1: Seq<char>, t2: Seq<char>, l: Seq<char>)
    requires
        lines(t2) == lines(t1).push(l),
        lines(t2).len() <= u32::MAX,
    ensures
        starts_with(l, "? "@) ==> porcelain(t2).untracked == porcelain(t1).untracked + 1,
        !starts_with(l, "? "@) ==> porcelain(t2).untracked == porcelain(t1).untracked,
        starts_with(l, "u "@) ==> porcelain(t2).conflicts == porcelain(t1).conflicts + 1,
        !starts_with(l, "u "@) ==> porcelain(t2).conflicts == porcelain(t1).conflicts,
{
    law_untracked_and_conflicts_counted(t1);
    law_untracked_and_conflicts_counted(t2);
    let pu = |l: Seq<char>| starts_with(l, "? "@);
    let pc = |l: Seq<char>| starts_with(l, "u "@);
    lemma_count_where_push(lines(t1), l, pu);
    lemma_count_where_push(lines(t1), l, pc);
    lemma_count_where_bound(lines(t2), pu);
    lemma_count_where_bound(lines(t2), pc);
}

/// The operation reported follows git's markers by priority: a merge first,
/// then a rebase (with either backend, `rebase-merge` or `rebase-apply`),
/// a cherry-pick, a revert and a bisect; without any marker, none.
pub proof fn law_state_priority(m: StateMarkers)
    ensures
        (state_of(m) == RepoState::Merging) <==> m.merge_head,
        (state_of(m) == RepoState::Rebasing) <==> (!m.merge_head && (m.rebase_merge
            || m.rebase_apply)),
        (state_of(m) == RepoState::CherryPicking) <==> (!m.merge_head && !m.rebase_merge
            && !m.rebase_apply && m.cherry_pick_head),
        (state_of(m) == RepoState::Reverting) <==> (!m.merge_head && !m.rebase_merge
            && !m.rebase_apply && !m.cherry_pick_head && m.revert_head),
        (state_of(m) == RepoState::Bisecting) <==> (!m.merge_head && !m.rebase_merge
            && !m.rebase_apply && !m.cherry_pick_head && !m.revert_head && m.bisect_log),
        (state_of(m) == RepoState::Clean) <==> (!m.merge_head && !m.rebase_merge && !m.rebase_apply
            && !m.cherry_pick_head && !m.revert_head && !m.bisect_log),
{
}

/// With no `# branch.ab` line after line `k`, the last one is line `k`.
proof fn lemma_last_ab(ls: Seq<Seq<char>>, k: int)
    requires
        0 <= k < ls.len(),
        classify(ls[k]) is Ab,
        forall|j: int| k < j < ls.len() ==> !(classify(#[trigger] ls[j]) is Ab),
    ensures
        last_some(ls, |l: Seq<char>| ab_rest(l)) == ab_rest(ls[k]),
    decreases ls.len(),
{
    if k < ls.len() - 1 {
        let init = ls.drop_last();
        assert(!(classify(ls[ls.len() - 1]) is Ab));
        assert(ab_rest(ls.last()) is None);
        assert(init[k] == ls[k]);
        assert forall|j: int| k < j < init.len() implies !(classify(#[trigger] init[j]) is Ab) by {
            assert(init[j] == ls[j]);
        }
        lemma_last_ab(init, k);
    }
}

/// With no `# branch.head` line after line `k`, the last one is line `k`.
proof fn lemma_last_head(ls: Seq<Seq<char>>, k: int)
    requires
        0 <= k < ls.len(),
        head_line(ls[k]),
        forall|j: int| k < j < ls.len() ==> !head_line(#[trigger] ls[j]),
    ensures
        last_some(ls, |l: Seq<char>| head_rest(l)) == head_rest(ls[k]),
    decreases ls.len(),
{
    if k < ls.len() - 1 {
        let init = ls.drop_last();
        assert(!head_line(ls[ls.len() - 1]));
        assert(head_rest(ls.last()) is None);
        assert(init[k] == ls[k]);
        assert forall|j: int| k < j < init.len() implies !head_line(#[trigger] init[j]) by {
            assert(init[j] == ls[j]);
        }
        lemma_last_head(init, k);
    }
}

/// The branch is named by the last `# branch.head` line, without the
/// surrounding whitespace; a detached HEAD names none.
pub proof fn law_branch_from_last_head(text: Seq<char>, k: int)
    requires
        0 <= k < lines(text).len(),
        head_line(lines(text)[k]),
        forall|j: int| k < j < lines(text).len() ==> !head_line(#[trigger] lines(text)[j]),
    ensures
        classify(lines(text)[k]) matches PorcelainLine::Head(r) && (trim(r) == "(detached)"@
            ==> porcelain(text).branch is None) && (trim(r) != "(detached)"@
            ==> porcelain(text).branch == Some(trim(r))),
{
    lemma_last_head(lines(text), k);
}

/// Ahead and behind come from the last `# branch.ab` line: with the usual
/// `+<a> -<b>` (decimal numbers that fit in 32 bits) the branch is `a`
/// commits ahead of its upstream and `b` behind.
pub proof fn law_ab_values(text: Seq<char>, k: int, a: Seq<char>, b: Seq<char>)
    requires
        0 <= k < lines(text).len(),
        classify(lines(text)[k]) matches PorcelainLine::Ab(r) && words(r) == seq![
            "+"@ + a,
            "-"@ + b,
        ],
        forall|j: int| k < j < lines(text).len() ==> !(classify(#[trigger] lines(text)[j]) is Ab),
        a.len() > 0,
        all_digits(a),
        digits_value(a) <= u32::MAX,
        b.len() > 0,
        all_digits(b),
        digits_value(b) <= u32::MAX,
    ensures
        porcelain(text).ahead == Some(digits_value(a) as u32),
        porcelain(text).behind == Some(digits_value(b) as u32),
{
    reveal_strlit("+");
    reveal_strlit("-");
    let ls = lines(text);
    lemma_last_ab(ls, k);
    let r = ab_rest(ls[k]).unwrap();
    let ta = "+"@ + a;
    let tb = "-"@ + b;
    let toks = words(r);
    assert(toks.drop_last() =~= seq![ta]);
    assert(seq![ta].drop_last() =~= Seq::<Seq<char>>::empty());
    assert(ta[0] == '+');
    assert(tb[0] == '-');
    assert(ta.drop_first() =~= a);
    assert(tb.drop_first() =~= b);
    assert(is_digit(a[0]));
    assert(is_digit(b[0]));
    assert(toks.last() == tb);
    assert(seq![ta].last() == ta);
    assert(last_signed(seq![ta], '+') == parse_u32_or_zero(a));
    assert(last_signed(toks, '+') == last_signed(seq![ta], '+'));
    assert(last_signed(toks, '-') == parse_u32_or_zero(b));
}

/// A conflict line is never also counted as staged or modified.
pub proof fn law_conflicts_are_separate(l: Seq<char>)
    ensures
        conflict_line(l) ==> !staged_line(l) && !modified_line(l),
{
}

pub proof fn lemma_last_some_push(
    ls: Seq<Seq<char>>,
    l: Seq<char>,
    f: spec_fn(Seq<char>) -> Option<Seq<char>>,
)
    ensures
        last_some(ls.push(l), f) == match f(l) {
            Some(r) => Some(r),
            None => last_some(ls, f),
        },
{
    assert(ls.push(l).drop_last() =~= ls);
}

pub proof fn lemma_last_signed_push(toks: Seq<Seq<char>>, t: Seq<char>, sign: char)
    ensures
        last_signed(toks.push(t), sign) == if t.len() > 0 && t[0] == sign {
            parse_u32_or_zero(t.drop_first())
        } else {
            last_signed(toks, sign)
        },
{
    assert(toks.push(t).drop_last() =~= toks);
}

pub open spec fn opt_chars(o: Option<Vec<char>>) -> Option<Seq<char>> {
    match o {
        Some(v) => Some(v@),
        None => None,
    }
}

fn opt_chars_to_string(o: &Option<Vec<char>>) -> (r: Option<String>)
    ensures
        opt_str(r) == opt_chars(*o),
{
    match o {
        Some(v) => Some(string_from_chars(v)),
        None => None,
    }
}

/// `(ahead, behind)` of a `# branch.ab` line, from the text after its prefix.
fn parse_ab(rest: &Vec<char>) -> (r: (u32, u32))
    ensures
        r == (last_signed(words(rest@), '+'), last_signed(words(rest@), '-')),
{
    let toks = split_words(rest);
    let ghost ws = words(rest@);
    let mut ahead: u32 = 0;
    let mut behind: u32 = 0;
    let n = toks.len();
    for j in 0..n
        invariant
            n == toks@.len(),
            n == ws.len(),
            forall|i: int| 0 <= i < toks@.len() ==> (#[trigger] toks@[i])@ == ws[i],
            ahead == last_signed(ws.take(j as int), '+'),
            behind == last_signed(ws.take(j as int), '-'),
    {
        let tok = &toks[j];
        proof {
            assert(ws.take(j + 1) =~= ws.take(j as int).push(tok@));
            lemma_last_signed_push(ws.take(j as int), tok@, '+');
            lemma_last_signed_push(ws.take(j as int), tok@, '-');
        }
        if tok.len() > 0 && tok[0] == '+' {
            let num = sub_chars(tok, 1, tok.len());
            assert(num@ =~= tok@.drop_first());
            ahead = match parse_u32_chars(&num) {
                Some(v) => v,
                None => 0,
            };
        } else if tok.len() > 0 && tok[0] == '-' {
            let num = sub_chars(tok, 1, tok.len());
            assert(num@ =~= tok@.drop_first());
            behind = match parse_u32_chars(&num) {
                Some(v) => v,
                None => 0,
            };
        }
    }
    assert(ws.take(n as int) =~= ws);
    (ahead, behind)
}

/// The staged and unstaged effect `(staged, modified)` of an entry line.
fn entry_counts(line: &Vec<char>) -> (r: (bool, bool))
    ensures
        r.0 == (words(line@).len() >= 2 && xy_staged(words(line@)[1])),
        r.1 == (words(line@).len() >= 2 && xy_modified(words(line@)[1])),
{
    let toks = split_words(line);
    if toks.len() >= 2 {
        let xy = &toks[1];
        let first_ascii = xy.len() > 0 && (xy[0] as u32) < 0x80;
        let wide = xy.len() >= 2 || (xy.len() == 1 && !first_ascii);
        if wide {
            let staged = xy[0] != '.';
            let modified = !(first_ascii && xy[1] == '.');
            (staged, modified)
        } else {
            (false, false)
        }
    } else {
        (false, false)
    }
}

/// Parses the output of `git status --porcelain=v2 --branch`.
pub fn parse_porcelain_v2(text: &str) -> (r: ParsedStatus)
    requires
        lines(text@).len() <= u32::MAX,
    ensures
        r@ == porcelain(text@),
{
    let cs = chars_of(text);
    let ls = split_lines(&cs);
    let ghost lns = lines(text@);
    let mut oid: Option<Vec<char>> = None;
    let mut branch: Option<Vec<char>> = None;
    let mut detached = false;
    let mut upstream: Option<Vec<char>> = None;
    let mut ab: Option<(u32, u32)> = None;
    let mut staged: u32 = 0;
    let mut modified: u32 = 0;
    let mut untracked: u32 = 0;
    let mut conflicts: u32 = 0;
    let mut changed = false;
    let n = ls.len();
    for i in 0..n
        invariant
            n == ls@.len(),
            n == lns.len(),
            n <= u32::MAX,
            lns == lines(text@),
            forall|k: int| 0 <= k < ls@.len() ==> (#[trigger] ls@[k])@ == lns[k],
            opt_chars(oid) == opt_trim(last_some(lns.take(i as int), |l: Seq<char>| oid_rest(l))),
            opt_chars(branch) == branch_of(lns.take(i as int)),
            detached == (count_where(lns.take(i as int), |l: Seq<char>| is_detached_head(l)) > 0),
            opt_chars(upstream) == opt_trim(
                last_some(lns.take(i as int), |l: Seq<char>| upstream_rest(l)),
            ),
            ab == ab_of(lns.take(i as int)),
            staged == count_where(lns.take(i as int), |l: Seq<char>| staged_line(l)),
            modified == count_where(lns.take(i as int), |l: Seq<char>| modified_line(l)),
            untracked == count_where(lns.take(i as int), |l: Seq<char>| untracked_line(l)),
            conflicts == count_where(lns.take(i as int), |l: Seq<char>| conflict_line(l)),
            changed == (count_where(lns.take(i as int), |l: Seq<char>| change_line(l)) > 0),
    {
        let line = &ls[i];
        let ghost prev = lns.take(i as int);
        let ghost l = line@;
        proof {
            assert(lns.take(i + 1) =~= prev.push(l));
            lemma_last_some_push(prev, l, |l: Seq<char>| oid_rest(l));
            lemma_last_some_push(prev, l, |l: Seq<char>| head_rest(l));
            lemma_last_some_push(prev, l, |l: Seq<char>| upstream_rest(l));
            lemma_last_some_push(prev, l, |l: Seq<char>| ab_rest(l));
            lemma_count_where_push(prev, l, |l: Seq<char>| is_detached_head(l));
            lemma_count_where_push(prev, l, |l: Seq<char>| staged_line(l));
            lemma_count_where_push(prev, l, |l: Seq<char>| modified_line(l));
            lemma_count_where_push(prev, l, |l: Seq<char>| untracked_line(l));
            lemma_count_where_push(prev, l, |l: Seq<char>| conflict_line(l));
            lemma_count_where_push(prev, l, |l: Seq<char>| change_line(l));
            lemma_count_where_bound(prev, |l: Seq<char>| staged_line(l));
            lemma_count_where_bound(prev, |l: Seq<char>| modified_line(l));
            lemma_count_where_bound(prev, |l: Seq<char>| untracked_line(l));
            lemma_count_where_bound(prev, |l: Seq<char>| conflict_line(l));
        }
        if let Some(rest) = strip_prefix_str(line, "# branch.oid ") {
            oid = Some(trim_chars(&rest));
        } else if let Some(rest) = strip_prefix_str(line, "# branch.head ") {
            let v = trim_chars(&rest);
            if chars_eq_str(&v, "(detached)") {
                detached = true;
                branch = None;
            } else {
                branch = Some(v);
            }
        } else if let Some(rest) = strip_prefix_str(line, "# branch.upstream ") {
            upstream = Some(trim_chars(&rest));
        } else if let Some(rest) = strip_prefix_str(line, "# branch.ab ") {
            ab = Some(parse_ab(&rest));
        } else if has_prefix_str(line, "1 ") || has_prefix_str(line, "2 ") {
            changed = true;
            let (s, m) = entry_counts(line);
            if s {
                staged += 1;
            }
            if m {
                modified += 1;
            }
        } else if has_prefix_str(line, "u ") {
            changed = true;
            conflicts += 1;
        } else if has_prefix_str(line, "? ") {
            changed = true;
            untracked += 1;
        }
    }
    proof {
        assert(lns.take(n as int) =~= lns);
    }
    let is_clean = !changed;
    let detached_sha = if detached {
        match oid {
            Some(o) => if !(o.len() > 0 && o[0] == '(') {
                Some(o)
            } else {
                None
            },
            None => None,
        }
    } else {
        None
    };
    let (ahead, behind) = match ab {
        Some(p) => (Some(p.0), Some(p.1)),
        None => (None, None),
    };
    ParsedStatus {
        branch: opt_chars_to_string(&branch),
        detached_sha: opt_chars_to_string(&detached_sha),
        upstream: opt_chars_to_string(&upstream),
        has_upstream: upstream.is_some(),
        ahead,
        behind,
        staged,
        modified,
        untracked,
        conflicts,
        is_clean,
    }
}

/// A line that holds something other than whitespace.
pub open spec fn non_blank_line(l: Seq<char>) -> bool {
    trim(l).len() > 0
}

/// A `worktree ` line of `git worktree list --porcelain`.
pub open spec fn worktree_line(l: Seq<char>) -> bool {
    starts_with(l, "worktree "@)
}

/// Number of non-blank lines of `cs`.
fn count_non_blank_lines(cs: &Vec<char>) -> (r: usize)
    ensures
        r == count_where(lines(cs@), |l: Seq<char>| non_blank_line(l)),
{
    let ls = split_lines(cs);
    let ghost lns = lines(cs@);
    let n = ls.len();
    let mut c: usize = 0;
    for i in 0..n
        invariant
            n == ls@.len(),
            n == lns.len(),
            forall|k: int| 0 <= k < ls@.len() ==> (#[trigger] ls@[k])@ == lns[k],
            c == count_where(lns.take(i as int), |l: Seq<char>| non_blank_line(l)),
            c <= i,
    {
        let line = &ls[i];
        proof {
            assert(lns.take(i + 1) =~= lns.take(i as int).push(line@));
            lemma_count_where_push(lns.take(i as int), line@, |l: Seq<char>| non_blank_line(l));
        }
        if trim_chars(line).len() > 0 {
            c += 1;
        }
    }
    assert(lns.take(n as int) =~= lns);
    c
}

/// Number of `worktree ` lines of `cs`.
fn count_worktree_lines(cs: &Vec<char>) -> (r: usize)
    ensures
        r == count_where(lines(cs@), |l: Seq<char>| worktree_line(l)),
{
    let ls = split_lines(cs);
    let ghost lns = lines(cs@);
    let n = ls.len();
    let mut c: usize = 0;
    for i in 0..n
        invariant
            n == ls@.len(),
            n == lns.len(),
            forall|k: int| 0 <= k < ls@.len() ==> (#[trigger] ls@[k])@ == lns[k],
            c == count_where(lns.take(i as int), |l: Seq<char>| worktree_line(l)),
            c <= i,
    {
        let line = &ls[i];
        proof {
            assert(lns.take(i + 1) =~= lns.take(i as int).push(line@));
            lemma_count_where_push(lns.take(i as int), line@, |l: Seq<char>| worktree_line(l));
        }
        if has_prefix_str(line, "worktree ") {
            c += 1;
        }
    }
    assert(lns.take(n as int) =~= lns);
    c
}

/// The view of a command result: its output or its error message.
pub open spec fn outcome(r: Result<String, String>) -> Result<Seq<char>, Seq<char>> {
    match r {
        Ok(t) => Ok(t@),
        Err(e) => Err(e@),
    }
}

/// Stashes counted in `git stash list` output `t`: its non-blank lines.
pub open spec fn stashes_listed(t: Seq<char>) -> u32 {
    count_where(lines(t), |l: Seq<char>| non_blank_line(l)) as u32
}

/// Stash count from the result of `git stash list`: its non-blank lines, or 0
/// when the command failed.
pub fn stash_count(list: &Result<String, String>) -> (r: u32)
    ensures
        r == match outcome(*list) {
            Ok(t) => stashes_listed(t),
            Err(_) => 0,
        },
        r == match outcome(*list) {
            Ok(t) => count_where(lines(t), |l: Seq<char>| non_blank_line(l)) as u32,
            Err(_) => 0,
        },
{
    match list {
        Ok(out) => {
            let cs = chars_of(out.as_str());
            count_non_blank_lines(&cs) as u32
        },
        Err(_) => 0,
    }
}

/// Worktrees counted in `git worktree list --porcelain` output `t`: its
/// `worktree ` lines, and at least the main one.
pub open spec fn worktrees_listed(t: Seq<char>) -> u32 {
    let c = count_where(lines(t), |l: Seq<char>| worktree_line(l)) as u32;
    if c == 0 {
        1
    } else {
        c
    }
}

/// Worktree count (main one included, so at least 1) from the result of
/// `git worktree list --porcelain`: its `worktree ` lines, or 1 when the
/// command failed.
pub fn worktree_count(list: &Result<String, String>) -> (r: u32)
    ensures
        r >= 1,
        r == match outcome(*list) {
            Ok(t) => worktrees_listed(t),
            Err(_) => 1,
        },
{
    match list {
        Ok(out) => {
            let cs = chars_of(out.as_str());
            let c = count_worktree_lines(&cs) as u32;
            if c == 0 {
                1
            } else {
                c
            }
        },
        Err(_) => 1,
    }
}

/// Every line of `git stash list` that is not blank is one stash; every
/// line of `git worktree list --porcelain` that starts with `worktree ` is one
/// worktree, and the main one is always counted, so there is at least one.
pub proof fn law_stash_and_worktree_counts(t: Seq<char>)
    requires
        lines(t).len() <= u32::MAX,
    ensures
        stashes_listed(t) == count_where(lines(t), |l: Seq<char>| trim(l).len() > 0) as u32,
        worktrees_listed(t) >= 1,
        count_where(lines(t), |l: Seq<char>| starts_with(l, "worktree "@)) >= 1 ==> worktrees_listed(
            t,
        ) == count_where(lines(t), |l: Seq<char>| starts_with(l, "worktree "@)) as u32,
        count_where(lines(t), |l: Seq<char>| starts_with(l, "worktree "@)) == 0 ==> worktrees_listed(
            t,
        ) == 1,
{
    let ls = lines(t);
    lemma_count_where_ext(ls, |l: Seq<char>| non_blank_line(l), |l: Seq<char>| trim(l).len() > 0);
    lemma_count_where_ext(
        ls,
        |l: Seq<char>| worktree_line(l),
        |l: Seq<char>| starts_with(l, "worktree "@),
    );
    lemma_count_where_bound(ls, |l: Seq<char>| worktree_line(l));
}

/// One more `worktree ` line is one more worktree, and one more non-blank
/// line of the stash list one more stash.
pub proof fn law_one_more_listed_line(t1: Seq<char>, t2: Seq<char>, l: Seq<char>)
    requires
        lines(t2) == lines(t1).push(l),
        lines(t2).len() < u32::MAX,
    ensures
        starts_with(l, "worktree "@) && count_where(lines(t1), |l: Seq<char>| worktree_line(l)) >= 1
            ==> worktrees_listed(t2) == worktrees_listed(t1) + 1,
        trim(l).len() > 0 ==> stashes_listed(t2) == stashes_listed(t1) + 1,
        trim(l).len() == 0 ==> stashes_listed(t2) == stashes_listed(t1),
{
    lemma_count_where_push(lines(t1), l, |l: Seq<char>| worktree_line(l));
    lemma_count_where_push(lines(t1), l, |l: Seq<char>| non_blank_line(l));
    lemma_count_where_bound(lines(t2), |l: Seq<char>| worktree_line(l));
    lemma_count_where_bound(lines(t2), |l: Seq<char>| non_blank_line(l));
}

/// Which marker paths of an operation in progress exist in the git directory
/// (each resolved with `git rev-parse --git-path <marker>`).
#[derive(Debug, Clone, Copy, PartialEq, Eq, Structural)]
pub struct StateMarkers {
    /// `MERGE_HEAD`
    pub merge_head: bool,
    /// `rebase-merge`
    pub rebase_merge: bool,
    /// `rebase-apply`
    pub rebase_apply: bool,
    /// `CHERRY_PICK_HEAD`
    pub cherry_pick_head: bool,
    /// `REVERT_HEAD`
    pub revert_head: bool,
    /// `BISECT_LOG`
    pub bisect_log: bool,
}

/// The operation in progress, by priority: merge, rebase, cherry-pick,
/// revert, bisect.
pub open spec fn state_of(m: StateMarkers) -> RepoState {
    if m.merge_head {
        RepoState::Merging
    } else if m.rebase_merge || m.rebase_apply {
        RepoState::Rebasing
    } else if m.cherry_pick_head {
        RepoState::CherryPicking
    } else if m.revert_head {
        RepoState::Reverting
    } else if m.bisect_log {
        RepoState::Bisecting
    } else {
        RepoState::Clean
    }
}

/// The operation in progress in a working copy, from its marker paths.
pub fn detect_state(m: &StateMarkers) -> (r: RepoState)
    ensures
        r == state_of(*m),
{
    if m.merge_head {
        RepoState::Merging
    } else if m.rebase_merge || m.rebase_apply {
        RepoState::Rebasing
    } else if m.cherry_pick_head {
        RepoState::CherryPicking
    } else if m.revert_head {
        RepoState::Reverting
    } else if m.bisect_log {
        RepoState::Bisecting
    } else {
        RepoState::Clean
    }
}

/// Path `p` (output of `git rev-parse`, trimmed) taken relative to `repo`
/// unless it is absolute, as `Path::join` does on Unix.
pub open spec fn resolved_path(repo: Seq<char>, p: Seq<char>) -> Seq<char> {
    let t = trim(p);
    if t.len() > 0 && t[0] == '/' {
        t
    } else if repo.len() == 0 || repo.last() == '/' {
        repo + t
    } else {
        repo + seq!['/'] + t
    }
}

/// A path printed by git is taken without its surrounding whitespace; an
/// absolute one is used as it is, a relative one is placed under the
/// repository directory, with a single `/` between them unless the directory
/// already ends with one (or is empty).
pub proof fn law_resolved_path(repo: Seq<char>, p: Seq<char>)
    ensures
        trim(p).len() > 0 && trim(p)[0] == '/' ==> resolved_path(repo, p) == trim(p),
        !(trim(p).len() > 0 && trim(p)[0] == '/') ==> {
            let r = resolved_path(repo, p);
            let sep: int = if repo.len() > 0 && repo[repo.len() - 1] != '/' {
                1
            } else {
                0
            };
            &&& r.len() == repo.len() + sep + trim(p).len()
            &&& r.take(repo.len() as int) == repo
            &&& sep == 1 ==> r[repo.len() as int] == '/'
            &&& r.skip(repo.len() + sep) == trim(p)
        },
{
    let t = trim(p);
    if !(t.len() > 0 && t[0] == '/') {
        let r = resolved_path(repo, p);
        if repo.len() > 0 && repo[repo.len() - 1] != '/' {
            assert(r.take(repo.len() as int) =~= repo);
            assert(r.skip(repo.len() as int + 1) =~= t);
        } else {
            assert(r.take(repo.len() as int) =~= repo);
            assert(r.skip(repo.len() as int) =~= t);
        }
    }
}

/// Resolves a path printed by `git rev-parse --git-path`/`--git-common-dir`
/// against the repository directory.
pub fn resolve_git_path(repo: &str, printed: &str) -> (r: String)
    ensures
        r@ == resolved_path(repo@, printed@),
{
    let pc = chars_of(printed);
    let t = trim_chars(&pc);
    if t.len() > 0 && t[0] == '/' {
        return string_from_chars(&t);
    }
    let mut out = chars_of(repo);
    if out.len() > 0 && out[out.len() - 1] != '/' {
        out.push('/');
    }
    let ghost base = out@;
    let n = t.len();
    for i in 0..n
        invariant
            n == t@.len(),
            out@ == base + t@.take(i as int),
    {
        out.push(t[i]);
        assert(out@ =~= base + t@.take(i + 1));
    }
    assert(t@.take(n as int) =~= t@);
    string_from_chars(&out)
}

/// What the auxiliary git commands report besides `git status`.
#[derive(Debug, Clone, Copy, PartialEq, Eq)]
pub struct GitExtras {
    pub stash: u32,
    pub state: RepoState,
    pub worktrees: u32,
    pub last_fetch: Option<i64>,
}

/// The status of a git repository given the result of
/// `git status --porcelain=v2 --branch` and the auxiliary readings.
pub open spec fn git_status_of(
    repo: RepoRefView,
    now: i64,
    status: Result<Seq<char>, Seq<char>>,
    x: GitExtras,
) -> RepoStatusView {
    let base = placeholder(repo, now);
    match status {
        Err(e) => RepoStatusView { error: Some(e), ..base },
        Ok(t) => {
            let p = porcelain(t);
            RepoStatusView {
                branch: p.branch,
                detached_sha: p.detached_sha,
                upstream: p.upstream,
                has_upstream: p.has_upstream,
                ahead: p.ahead,
                behind: p.behind,
                staged: p.staged,
                modified: p.modified,
                untracked: p.untracked,
                conflicts: p.conflicts,
                is_clean: p.is_clean,
                stash: x.stash,
                state: x.state,
                worktrees: x.worktrees,
                last_fetch: x.last_fetch,
                ..base
            }
        },
    }
}

/// Fills the status of `repo` at `now` from the result of
/// `git status --porcelain=v2 --branch`; when it failed only the error is set.
pub fn read_status(
    repo: &RepoRef,
    now: i64,
    status: &Result<String, String>,
    extras: &GitExtras,
) -> (r: RepoStatus)
    requires
        status matches Ok(t) ==> lines(t@).len() <= u32::MAX,
    ensures
        r@ == git_status_of(repo@, now, outcome(*status), *extras),
{
    let mut st = RepoStatus::from_ref(repo, now);
    match status {
        Ok(text) => {
            let p = parse_porcelain_v2(text.as_str());
            st.branch = p.branch;
            st.detached_sha = p.detached_sha;
            st.upstream = p.upstream;
            st.has_upstream = p.has_upstream;
            st.ahead = p.ahead;
            st.behind = p.behind;
            st.staged = p.staged;
            st.modified = p.modified;
            st.untracked = p.untracked;
            st.conflicts = p.conflicts;
            st.is_clean = p.is_clean;
            st.stash = extras.stash;
            st.state = extras.state;
            st.worktrees = extras.worktrees;
            st.last_fetch = extras.last_fetch;
        },
        Err(e) => {
            st.error = Some(e.clone());
        },
    }
    st
}

/// A git status keeps the repository's identity and the time of the check.
/// When `git status` succeeded, every field comes from its output or from
/// the auxiliary readings, and there is no error; when it failed, the status
/// carries its error and otherwise shows nothing: no branch, no changes,
/// clean, no operation, one worktree.
pub proof fn law_git_status_fields(
    repo: RepoRefView,
    now: i64,
    status: Result<Seq<char>, Seq<char>>,
    x: GitExtras,
)
    ensures
        ({
            let r = git_status_of(repo, now, status, x);
            &&& r.path == repo.path && r.name == repo.name && r.category == repo.category && r.vcs
                == repo.vcs
            &&& r.last_checked == now
            &&& status matches Ok(t) ==> {
                let p = porcelain(t);
                &&& r.error is None
                &&& r.branch == p.branch && r.detached_sha == p.detached_sha && r.upstream
                    == p.upstream && r.has_upstream == p.has_upstream
                &&& r.ahead == p.ahead && r.behind == p.behind
                &&& r.staged == p.staged && r.modified == p.modified && r.untracked == p.untracked
                    && r.conflicts == p.conflicts && r.is_clean == p.is_clean
                &&& r.stash == x.stash && r.state == x.state && r.worktrees == x.worktrees
                    && r.last_fetch == x.last_fetch
            }
            &&& status matches Err(e) ==> {
                &&& r.error == Some(e)
                &&& r.branch is None && r.detached_sha is None && r.upstream is None
                    && !r.has_upstream && r.ahead is None && r.behind is None
                &&& r.staged == 0 && r.modified == 0 && r.untracked == 0 && r.conflicts == 0
                    && r.stash == 0 && r.is_clean
                &&& r.state == RepoState::Clean && r.worktrees == 1 && r.last_fetch is None
            }
        }),
{
}

} // verus!
