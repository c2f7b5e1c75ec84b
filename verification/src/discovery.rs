//! Discovery rules: how a repository's category follows from its path, which
//! directories the walk enters, which repositories the exclusion globs leave
//! out, and how the list of found repositories grows.
//!
//! Paths follow Unix conventions (`/` separates components).
use vstd::prelude::*;
use crate::text::{
    chars_eq, chars_eq_str, chars_of, is_ws, lemma_lead_ws_is, lemma_trail_ws_is, split_chars, split_on,
    string_from_chars, trim, trim_chars, trim_end, trim_start,
};
use crate::model::{strs, RepoRef, RepoRefView};
use globset::{GlobBuilder, GlobSet, GlobSetBuilder};

verus! {

/// A component of a path, as `Path::components` yields it.
pub enum Component {
    RootDir,
    CurDir,
    ParentDir,
    Normal(Seq<char>),
}

/// The component a `/`-separated segment contributes: none for an empty
/// segment or `.`, `..` for the parent, else a normal name.
pub open spec fn segment_component(s: Seq<char>) -> Seq<Component> {
    if s.len() == 0 || s == "."@ {
        seq![]
    } else if s == ".."@ {
        seq![Component::ParentDir]
    } else {
        seq![Component::Normal(s)]
    }
}

pub open spec fn segments_components(segs: Seq<Seq<char>>) -> Seq<Component>
    decreases segs.len(),
{
    if segs.len() == 0 {
        seq![]
    } else {
        segments_components(segs.drop_last()) + segment_component(segs.last())
    }
}

/// `Path::components` on Unix: a root for a leading `/`, a `.` only at the
/// start of a relative path, and every other non-empty, non-`.` segment.
pub open spec fn path_components(p: Seq<char>) -> Seq<Component> {
    let segs = split_on(p, '/');
    if p.len() > 0 && p[0] == '/' {
        seq![Component::RootDir] + segments_components(segs.drop_first())
    } else if segs[0] == "."@ {
        seq![Component::CurDir] + segments_components(segs.drop_first())
    } else {
        segments_components(segs)
    }
}

/// The text of a component.
pub open spec fn component_text(c: Component) -> Seq<char> {
    match c {
        Component::RootDir => "/"@,
        Component::CurDir => "."@,
        Component::ParentDir => ".."@,
        Component::Normal(s) => s,
    }
}

/// `base` is a prefix of `p` component by component (`Path::starts_with`).
pub open spec fn path_starts_with(p: Seq<char>, base: Seq<char>) -> bool {
    let pc = path_components(p);
    let bc = path_components(base);
    bc.len() <= pc.len() && pc.take(bc.len() as int) == bc
}

/// The components of `repo` relative to `root` when it lies under `root`,
/// else all of its components.
pub open spec fn relative_components(repo: Seq<char>, root: Seq<char>) -> Seq<Component> {
    if path_starts_with(repo, root) {
        path_components(repo).skip(path_components(root).len() as int)
    } else {
        path_components(repo)
    }
}

/// The category of a repository: the first component of its path relative to
/// its root when there are at least two, else the root's own name (or
/// `(root)` when the root has no name).
pub open spec fn category_of(repo: Seq<char>, root: Seq<char>) -> Seq<char> {
    let rel = relative_components(repo, root);
    if rel.len() >= 2 {
        component_text(rel[0])
    } else {
        let rc = path_components(root);
        if rc.len() > 0 && rc.last() is Normal {
            component_text(rc.last())
        } else {
            "(root)"@
        }
    }
}

/// A repository at least two levels below its root is filed under the first
/// component below the root; one directly under the root is filed under the
/// root's own name.
pub proof fn law_category_under_root(
    repo: Seq<char>,
    root: Seq<char>,
    c: Seq<char>,
    rest: Seq<Component>,
)
    requires
        path_components(repo) == path_components(root) + seq![Component::Normal(c)] + rest,
    ensures
        rest.len() >= 1 ==> category_of(repo, root) == c,
        rest.len() == 0 && path_components(root).len() > 0 && path_components(root).last() is Normal
            ==> category_of(repo, root) == component_text(path_components(root).last()),
        rest.len() == 0 && (path_components(root).len() == 0 || !(path_components(root).last() is Normal))
            ==> category_of(repo, root) == "(root)"@,
{
    let pc = path_components(repo);
    let bc = path_components(root);
    assert(pc.take(bc.len() as int) =~= bc);
    assert(pc.skip(bc.len() as int) =~= seq![Component::Normal(c)] + rest);
}

/// A repository added by hand is filed as a scanned one under the first root
/// it lies in, and as `(manual)` when it lies in none.
pub proof fn law_manual_category(p: Seq<char>, roots: Seq<Seq<char>>, j: int)
    requires
        0 <= j <= roots.len(),
        forall|k: int| 0 <= k < j ==> !path_starts_with(p, #[trigger] roots[k]),
    ensures
        j < roots.len() && path_starts_with(p, roots[j]) ==> manual_category_of(p, roots)
            == category_of(p, roots[j]),
        j == roots.len() ==> manual_category_of(p, roots) == "(manual)"@,
{
    lemma_first_root_skip(p, roots, j);
    if j < roots.len() {
        assert(roots.skip(j)[0] == roots[j]);
    } else {
        assert(roots.skip(j).len() == 0);
    }
}

/// A component held by the library.
enum PathPart {
    Root,
    Cur,
    Parent,
    Normal(Vec<char>),
}

spec fn part_view(p: PathPart) -> Component {
    match p {
        PathPart::Root => Component::RootDir,
        PathPart::Cur => Component::CurDir,
        PathPart::Parent => Component::ParentDir,
        PathPart::Normal(v) => Component::Normal(v@),
    }
}

spec fn parts_view(v: Seq<PathPart>) -> Seq<Component> {
    v.map_values(|p: PathPart| part_view(p))
}

/// The components of path `p`.
fn components(p: &Vec<char>) -> (r: Vec<PathPart>)
    ensures
        parts_view(r@) == path_components(p@),
{
    let segs = split_chars(p, '/');
    let ghost sv = split_on(p@, '/');
    proof {
        crate::text::lemma_split_on_nonempty(p@, '/');
    }
    let mut out: Vec<PathPart> = Vec::new();
    let start: usize;
    if p.len() > 0 && p[0] == '/' {
        out.push(PathPart::Root);
        start = 1;
    } else if chars_eq_str(&segs[0], ".") {
        out.push(PathPart::Cur);
        start = 1;
    } else {
        start = 0;
    }
    let ghost head = parts_view(out@);
    let n = segs.len();
    assert(sv.subrange(start as int, start as int) =~= Seq::<Seq<char>>::empty());
    for i in start..n
        invariant
            n == segs@.len(),
            n == sv.len(),
            sv == split_on(p@, '/'),
            forall|k: int| 0 <= k < segs@.len() ==> (#[trigger] segs@[k])@ == sv[k],
            parts_view(out@) == head + segments_components(sv.subrange(start as int, i as int)),
    {
        let s = &segs[i];
        let ghost before = parts_view(out@);
        proof {
            reveal_strlit(".");
            reveal_strlit("..");
            assert(sv.subrange(start as int, i + 1).drop_last() =~= sv.subrange(
                start as int,
                i as int,
            ));
        }
        if s.len() == 0 || chars_eq_str(s, ".") {
        } else if chars_eq_str(s, "..") {
            out.push(PathPart::Parent);
            assert(parts_view(out@) =~= before + seq![Component::ParentDir]);
        } else {
            let copy = crate::text::sub_chars(s, 0, s.len());
            assert(copy@ =~= s@);
            out.push(PathPart::Normal(copy));
            assert(parts_view(out@) =~= before + seq![Component::Normal(s@)]);
        }
    }
    proof {
        if start == 1 {
            assert(sv.subrange(1, n as int) =~= sv.drop_first());
        } else {
            assert(sv.subrange(0, n as int) =~= sv);
        }
        assert(parts_view(out@) =~= path_components(p@));
    }
    out
}

/// Whether two components are equal.
fn part_eq(a: &PathPart, b: &PathPart) -> (r: bool)
    ensures
        r == (part_view(*a) == part_view(*b)),
{
    match (a, b) {
        (PathPart::Root, PathPart::Root) => true,
        (PathPart::Cur, PathPart::Cur) => true,
        (PathPart::Parent, PathPart::Parent) => true,
        (PathPart::Normal(x), PathPart::Normal(y)) => chars_eq(x, y),
        _ => false,
    }
}

/// Whether `base` is a component-wise prefix of `p`.
fn parts_start_with(p: &Vec<PathPart>, base: &Vec<PathPart>) -> (r: bool)
    ensures
        r == (parts_view(base@).len() <= parts_view(p@).len() && parts_view(p@).take(
            parts_view(base@).len() as int,
        ) == parts_view(base@)),
{
    let ghost pv = parts_view(p@);
    let ghost bv = parts_view(base@);
    if base.len() > p.len() {
        return false;
    }
    let n = base.len();
    for i in 0..n
        invariant
            n == base@.len(),
            n <= p@.len(),
            pv == parts_view(p@),
            bv == parts_view(base@),
            forall|k: int| 0 <= k < i ==> pv[k] == bv[k],
    {
        if !part_eq(&p[i], &base[i]) {
            assert(pv.take(n as int)[i as int] != bv[i as int]);
            return false;
        }
    }
    assert(pv.take(n as int) =~= bv);
    true
}

/// The text of a component as a string.
fn part_text(c: &PathPart) -> (r: String)
    ensures
        r@ == component_text(part_view(*c)),
{
    match c {
        PathPart::Root => "/".to_owned(),
        PathPart::Cur => ".".to_owned(),
        PathPart::Parent => "..".to_owned(),
        PathPart::Normal(v) => string_from_chars(v),
    }
}

/// The category of the repository at `repo_path` found under `root`.
pub fn category_for(repo_path: &str, root: &str) -> (r: String)
    ensures
        r@ == category_of(repo_path@, root@),
{
    let pc = components(&chars_of(repo_path));
    let rc = components(&chars_of(root));
    let under = parts_start_with(&pc, &rc);
    let start = if under {
        rc.len()
    } else {
        0
    };
    proof {
        let rel = relative_components(repo_path@, root@);
        if under {
            assert(rel =~= parts_view(pc@).skip(rc@.len() as int));
        } else {
            assert(rel == parts_view(pc@));
        }
    }
    if pc.len() - start >= 2 {
        assert(relative_components(repo_path@, root@)[0] == part_view(pc@[start as int]));
        part_text(&pc[start])
    } else if rc.len() > 0 {
        let last = &rc[rc.len() - 1];
        assert(part_view(*last) == path_components(root@).last());
        match last {
            PathPart::Normal(v) => string_from_chars(v),
            _ => "(root)".to_owned(),
        }
    } else {
        "(root)".to_owned()
    }
}

/// The first root, in order, that `p` lies under.
pub open spec fn first_root_of(p: Seq<char>, roots: Seq<Seq<char>>) -> Option<Seq<char>>
    decreases roots.len(),
{
    if roots.len() == 0 {
        None
    } else if path_starts_with(p, roots[0]) {
        Some(roots[0])
    } else {
        first_root_of(p, roots.drop_first())
    }
}

/// The category of a repository added by hand: as for a scanned one when it
/// lies under a root (the first such root), else `(manual)`.
pub open spec fn manual_category_of(p: Seq<char>, roots: Seq<Seq<char>>) -> Seq<char> {
    match first_root_of(p, roots) {
        Some(r) => category_of(p, r),
        None => "(manual)"@,
    }
}

proof fn lemma_first_root_skip(p: Seq<char>, roots: Seq<Seq<char>>, j: int)
    requires
        0 <= j <= roots.len(),
        forall|k: int| 0 <= k < j ==> !path_starts_with(p, #[trigger] roots[k]),
    ensures
        first_root_of(p, roots) == first_root_of(p, roots.skip(j)),
    decreases j,
{
    if j > 0 {
        assert(roots.skip(j) =~= roots.drop_first().skip(j - 1));
        lemma_first_root_skip(p, roots.drop_first(), j - 1);
    } else {
        assert(roots.skip(0) =~= roots);
    }
}

/// The category of a repository added by hand at `path`.
pub fn manual_category(path: &str, roots: &Vec<String>) -> (r: String)
    ensures
        r@ == manual_category_of(path@, strs(roots@)),
{
    let ghost rv = strs(roots@);
    let pc = components(&chars_of(path));
    let n = roots.len();
    for i in 0..n
        invariant
            n == roots@.len(),
            rv == strs(roots@),
            parts_view(pc@) == path_components(path@),
            forall|k: int| 0 <= k < i ==> !path_starts_with(path@, #[trigger] rv[k]),
    {
        let rc = components(&chars_of(roots[i].as_str()));
        if parts_start_with(&pc, &rc) {
            proof {
                lemma_first_root_skip(path@, rv, i as int);
                assert(rv.skip(i as int)[0] == rv[i as int]);
            }
            return category_for(path, roots[i].as_str());
        }
    }
    proof {
        lemma_first_root_skip(path@, rv, n as int);
        assert(rv.skip(n as int).len() == 0);
    }
    "(manual)".to_owned()
}

/// Directory names the discovery walk does not descend into.
pub open spec fn pruned_name(name: Seq<char>) -> bool {
    name == "node_modules"@ || name == "target"@ || name == "Pods"@ || name == ".build"@ || name
        == ".git"@ || name == ".svn"@
}

/// Whether the discovery walk skips a directory of this name.
pub fn is_pruned_dir(name: &str) -> (r: bool)
    ensures
        r == pruned_name(name@),
{
    let v = chars_of(name);
    chars_eq_str(&v, "node_modules") || chars_eq_str(&v, "target") || chars_eq_str(&v, "Pods")
        || chars_eq_str(&v, ".build") || chars_eq_str(&v, ".git") || chars_eq_str(&v, ".svn")
}

// ---------------------------------------------------------------------------
// Exclusion globs
// ---------------------------------------------------------------------------

/// `globset::GlobSet`, a compiled set of globs.
#[verifier::external_type_specification]
#[verifier::external_body]
pub struct ExGlobSet(GlobSet);

/// `globset::GlobSetBuilder`, the globs of a set to be compiled.
#[verifier::external_type_specification]
#[verifier::external_body]
pub struct ExGlobSetBuilder(GlobSetBuilder);

/// Whether globset accepts `pattern` as a glob built with the options
/// `case_insensitive` and `literal_separator` (`*` and `?` do not match `/`).
/// The answer depends on the build target as well: outside Windows `\`
/// escapes the next character, while on Windows globset takes `\` as a path
/// separator. Within one build the same arguments always get the same answer.
pub uninterp spec fn exclude_glob_parses(
    pattern: Seq<char>,
    case_insensitive: bool,
    literal_separator: bool,
) -> bool;

/// The globs added to a builder so far, in order, each as its pattern and
/// its two options `(case_insensitive, literal_separator)`.
pub uninterp spec fn builder_globs(b: GlobSetBuilder) -> Seq<(Seq<char>, bool, bool)>;

/// Whether globset compiles a set from these globs.
pub uninterp spec fn globset_builds(globs: Seq<(Seq<char>, bool, bool)>) -> bool;

/// Whether a set compiled from these globs matches `path`. This depends on
/// the build target too: on Windows globset reads `\` in a pattern as a
/// separator and turns the separators of `path` into `/` before matching.
/// Within one build the same globs and path always give the same answer.
pub uninterp spec fn globset_matches(globs: Seq<(Seq<char>, bool, bool)>, path: Seq<char>) -> bool;

/// What `GlobSet::is_match` answers for this set and `path`: the set holds
/// its compiled matchers, so the answer is a function of the set's value.
pub uninterp spec fn set_matches(set: GlobSet, path: Seq<char>) -> bool;

/// `GlobSetBuilder::new`: a builder without globs.
#[verifier::external_body]
fn new_builder() -> (b: GlobSetBuilder)
    ensures
        builder_globs(b) == Seq::<(Seq<char>, bool, bool)>::empty(),
{
    GlobSetBuilder::new()
}

/// `GlobBuilder::new(pattern)` with the two options, then `build`, and on
/// success `GlobSetBuilder::add`: the glob is added exactly when globset
/// parses it.
#[verifier::external_body]
fn add_glob(
    b: &mut GlobSetBuilder,
    pattern: &str,
    case_insensitive: bool,
    literal_separator: bool,
) -> (added: bool)
    ensures
        added == exclude_glob_parses(pattern@, case_insensitive, literal_separator),
        builder_globs(*final(b)) == if added {
            builder_globs(*old(b)).push((pattern@, case_insensitive, literal_separator))
        } else {
            builder_globs(*old(b))
        },
{
    match GlobBuilder::new(pattern).case_insensitive(case_insensitive).literal_separator(
        literal_separator,
    ).build() {
        Ok(g) => {
            b.add(g);
            true
        },
        Err(_) => false,
    }
}

/// `GlobSetBuilder::build`: a set that matches as its globs do, when they
/// compile; a builder without globs always gives one, which matches nothing.
#[verifier::external_body]
fn build_set(b: &GlobSetBuilder) -> (r: Option<GlobSet>)
    ensures
        r is Some <==> globset_builds(builder_globs(*b)),
        builder_globs(*b).len() == 0 ==> r is Some,
        forall|p: Seq<char>|
            r is Some ==> #[trigger] set_matches(r.unwrap(), p) == globset_matches(
                builder_globs(*b),
                p,
            ),
        forall|p: Seq<char>|
            r is Some && builder_globs(*b).len() == 0 ==> !#[trigger] set_matches(r.unwrap(), p),
{
    b.build().ok()
}

/// `GlobSet::empty`: a set that matches nothing.
#[verifier::external_body]
fn empty_set() -> (s: GlobSet)
    ensures
        forall|p: Seq<char>| !#[trigger] set_matches(s, p),
{
    GlobSet::empty()
}

/// `GlobSet::is_match`: whether the set matches `path`.
#[verifier::external_body]
fn set_is_match(s: &GlobSet, path: &str) -> (r: bool)
    ensures
        r == set_matches(*s, path@),
{
    s.is_match(path)
}

/// `s` without any trailing `/`.
pub open spec fn trim_end_slashes(s: Seq<char>) -> Seq<char>
    decreases s.len(),
{
    if s.len() > 0 && s.last() == '/' {
        trim_end_slashes(s.drop_last())
    } else {
        s
    }
}

/// The glob patterns one exclusion entry stands for: none when it is blank;
/// itself when absolute; else the directory anywhere (`**/<raw>`) and
/// everything below it (`**/<raw>/**`).
pub open spec fn patterns_for(raw: Seq<char>) -> Seq<Seq<char>> {
    let t = trim_end_slashes(trim(raw));
    if t.len() == 0 {
        seq![]
    } else if t[0] == '/' {
        seq![t]
    } else {
        seq!["**/"@ + t, "**/"@ + t + "/**"@]
    }
}

/// The glob patterns of all exclusion entries, in order.
pub open spec fn exclude_patterns_of(globs: Seq<Seq<char>>) -> Seq<Seq<char>>
    decreases globs.len(),
{
    if globs.len() == 0 {
        seq![]
    } else {
        exclude_patterns_of(globs.drop_last()) + patterns_for(globs.last())
    }
}

/// An exclusion glob as handed to globset: the pattern, matched
/// case-insensitively, with `*` and `?` not crossing `/`.
pub open spec fn exclusion_glob(pattern: Seq<char>) -> (Seq<char>, bool, bool) {
    (pattern, true, true)
}

/// The exclusion globs that globset accepts, in order.
pub open spec fn parsing_globs(ps: Seq<Seq<char>>) -> Seq<(Seq<char>, bool, bool)>
    decreases ps.len(),
{
    if ps.len() == 0 {
        seq![]
    } else if exclude_glob_parses(ps.last(), true, true) {
        parsing_globs(ps.drop_last()).push(exclusion_glob(ps.last()))
    } else {
        parsing_globs(ps.drop_last())
    }
}

/// The globs of the exclusion entries `globs` that globset accepts.
pub open spec fn exclusion_globs(globs: Seq<Seq<char>>) -> Seq<(Seq<char>, bool, bool)> {
    parsing_globs(exclude_patterns_of(globs))
}

/// Whether the exclusion entries `globs` exclude `path`: their accepted globs
/// compile together and match it (when they do not compile, nothing is
/// excluded).
pub open spec fn excluded_by(globs: Seq<Seq<char>>, path: Seq<char>) -> bool {
    globset_builds(exclusion_globs(globs)) && globset_matches(exclusion_globs(globs), path)
}

/// `c` with every character of `t` appended.
fn append_chars(c: &mut Vec<char>, t: &Vec<char>)
    ensures
        final(c)@ == old(c)@ + t@,
{
    let ghost base = c@;
    let n = t.len();
    for i in 0..n
        invariant
            n == t@.len(),
            c@ == base + t@.take(i as int),
    {
        c.push(t[i]);
        assert(c@ =~= base + t@.take(i + 1));
    }
    assert(t@.take(n as int) =~= t@);
}

/// The glob patterns of one exclusion entry.
fn patterns_of_entry(raw: &String) -> (r: Vec<String>)
    ensures
        strs(r@) == patterns_for(raw@),
{
    let cs = chars_of(raw.as_str());
    let mut t = trim_chars(&cs);
    let ghost trimmed = t@;
    while t.len() > 0 && t[t.len() - 1] == '/'
        invariant
            trim_end_slashes(t@) == trim_end_slashes(trimmed),
        decreases t@.len(),
    {
        t.pop();
    }
    assert(trim_end_slashes(t@) == t@);
    let mut out: Vec<String> = Vec::new();
    if t.len() == 0 {
    } else if t[0] == '/' {
        out.push(string_from_chars(&t));
    } else {
        let mut a = chars_of("**/");
        append_chars(&mut a, &t);
        let mut b = chars_of("**/");
        append_chars(&mut b, &t);
        let tail = chars_of("/**");
        append_chars(&mut b, &tail);
        out.push(string_from_chars(&a));
        out.push(string_from_chars(&b));
    }
    assert(strs(out@) =~= patterns_for(raw@));
    out
}

/// The glob patterns the exclusion entries stand for.
pub fn exclude_patterns(globs: &Vec<String>) -> (r: Vec<String>)
    ensures
        strs(r@) == exclude_patterns_of(strs(globs@)),
{
    let ghost gv = strs(globs@);
    let mut out: Vec<String> = Vec::new();
    let n = globs.len();
    for i in 0..n
        invariant
            n == globs@.len(),
            gv == strs(globs@),
            strs(out@) == exclude_patterns_of(gv.take(i as int)),
    {
        let ps = patterns_of_entry(&globs[i]);
        let ghost before = out@;
        let m = ps.len();
        for j in 0..m
            invariant
                m == ps@.len(),
                out@ == before + ps@.take(j as int),
        {
            out.push(ps[j].clone());
            assert(out@ =~= before + ps@.take(j + 1));
        }
        proof {
            assert(ps@.take(m as int) =~= ps@);
            assert(gv.take(i + 1).drop_last() =~= gv.take(i as int));
            assert(strs(out@) =~= strs(before) + strs(ps@));
        }
    }
    assert(gv.take(n as int) =~= gv);
    out
}

/// The set of exclusion globs: every pattern of the entries that globset
/// accepts, matched case-insensitively against a repository's absolute path,
/// `*` not crossing `/`. When the patterns cannot be compiled together the set
/// is empty; without any pattern (no entries, or only blank ones) nothing is
/// excluded.
pub fn build_exclude_set(globs: &Vec<String>) -> (r: GlobSet)
    ensures
        forall|p: Seq<char>| #[trigger] set_matches(r, p) == excluded_by(strs(globs@), p),
        exclude_patterns_of(strs(globs@)).len() == 0 ==> forall|p: Seq<char>|
            !#[trigger] set_matches(r, p),
{
    let patterns = exclude_patterns(globs);
    let ghost all = exclude_patterns_of(strs(globs@));
    let mut builder = new_builder();
    let n = patterns.len();
    for i in 0..n
        invariant
            n == patterns@.len(),
            strs(patterns@) == all,
            builder_globs(builder) == parsing_globs(all.take(i as int)),
    {
        proof {
            assert(all.take(i + 1).drop_last() =~= all.take(i as int));
            assert(all[i as int] == patterns@[i as int]@);
        }
        add_glob(&mut builder, patterns[i].as_str(), true, true);
    }
    assert(all.take(n as int) =~= all);
    match build_set(&builder) {
        Some(s) => s,
        None => empty_set(),
    }
}

/// Whether the repository at `path` is excluded by `set`.
pub fn is_excluded(set: &GlobSet, path: &str) -> (r: bool)
    ensures
        r == set_matches(*set, path@),
{
    set_is_match(set, path)
}

/// An exclusion entry written without surrounding whitespace: an absolute
/// one (`/...`) is used as it is; any other stands for that directory at any
/// depth (`**/<entry>`) and everything below it (`**/<entry>/**`). A
/// trailing `/` on the entry changes nothing.
pub proof fn law_entry_patterns(e: Seq<char>)
    requires
        e.len() > 0,
        !is_ws(e[0]),
        !is_ws(e.last()),
        e.last() != '/',
    ensures
        e[0] == '/' ==> patterns_for(e) == seq![e],
        e[0] != '/' ==> patterns_for(e) == seq!["**/"@ + e, "**/"@ + e + "/**"@],
        patterns_for(e + "/"@) == patterns_for(e),
{
    reveal_strlit("/");
    lemma_lead_ws_is(e, 0);
    lemma_trail_ws_is(e, 0);
    assert(trim_start(e) =~= e);
    assert(trim_end(e) =~= e);
    let f = e + "/"@;
    assert(f[0] == e[0]);
    assert(f.last() == '/');
    lemma_lead_ws_is(f, 0);
    assert(f.drop_last() =~= e);
    lemma_trail_ws_is(f, 0);
    assert(trim_start(f) =~= f);
    assert(trim_end(f) =~= f);
    assert(trim_end_slashes(f) == trim_end_slashes(e));
}

/// Blank entries (and entries of only `/` and whitespace) add no pattern.
pub proof fn law_blank_entry_adds_nothing(raw: Seq<char>)
    requires
        trim_end_slashes(trim(raw)).len() == 0,
    ensures
        patterns_for(raw).len() == 0,
{
}

// ---------------------------------------------------------------------------
// The walk
// ---------------------------------------------------------------------------

/// The depth at which the walk visits a child of a directory at `depth`:
/// only below the depth limit, only when the child is a directory itself (a
/// symbolic link is not followed), and never one with a pruned name.
pub open spec fn child_depth_of(depth: u32, scan_depth: u32, is_dir: bool, name: Seq<char>) -> Option<
    u32,
> {
    if depth < scan_depth && is_dir && !pruned_name(name) {
        Some((depth + 1) as u32)
    } else {
        None
    }
}

/// Whether, and at which depth, the walk enters the child entry `name` of a
/// directory visited at `depth`.
pub fn child_depth(depth: u32, scan_depth: u32, is_dir: bool, name: &str) -> (r: Option<u32>)
    ensures
        r == child_depth_of(depth, scan_depth, is_dir, name@),
{
    if depth < scan_depth && is_dir && !is_pruned_dir(name) {
        Some(depth + 1)
    } else {
        None
    }
}

/// Views of the repositories found so far.
pub open spec fn ref_views(s: Seq<RepoRef>) -> Seq<RepoRefView> {
    s.map_values(|r: RepoRef| r@)
}

/// Some repository of `found` has this path.
pub open spec fn path_found(found: Seq<RepoRefView>, path: Seq<char>) -> bool {
    exists|i: int| 0 <= i < found.len() && (#[trigger] found[i]).path == path
}

/// No two repositories of `found` share a path.
pub open spec fn paths_distinct(found: Seq<RepoRefView>) -> bool {
    forall|i: int, j: int|
        0 <= i < j < found.len() ==> (#[trigger] found[i]).path != (#[trigger] found[j]).path
}

/// Whether a repository of `found` has the path `path`.
fn path_in(found: &Vec<RepoRef>, path: &str) -> (r: bool)
    ensures
        r == path_found(ref_views(found@), path@),
{
    let pc = chars_of(path);
    let ghost fv = ref_views(found@);
    let n = found.len();
    for i in 0..n
        invariant
            n == found@.len(),
            fv == ref_views(found@),
            pc@ == path@,
            forall|k: int| 0 <= k < i ==> (#[trigger] fv[k]).path != path@,
    {
        let c = chars_of(found[i].path.as_str());
        if chars_eq(&c, &pc) {
            assert(fv[i as int].path == path@);
            return true;
        }
    }
    false
}

/// Adds `candidate` to the repositories found so far unless `excl` excludes
/// its path or a repository with the same path was already found; says
/// whether it was added. The exclusion is tested first, so an excluded path
/// never counts as found.
pub fn admit_repo(found: &mut Vec<RepoRef>, candidate: RepoRef, excl: &GlobSet) -> (added: bool)
    ensures
        added == (!set_matches(*excl, candidate.path@) && !path_found(
            ref_views(old(found)@),
            candidate.path@,
        )),
        ref_views(final(found)@) == if added {
            ref_views(old(found)@).push(candidate@)
        } else {
            ref_views(old(found)@)
        },
        paths_distinct(ref_views(old(found)@)) ==> paths_distinct(ref_views(final(found)@)),
{
    if is_excluded(excl, candidate.path.as_str()) {
        return false;
    }
    if path_in(found, candidate.path.as_str()) {
        return false;
    }
    let ghost before = ref_views(found@);
    found.push(candidate);
    proof {
        assert(ref_views(found@) =~= before.push(candidate@));
        let after = ref_views(found@);
        if paths_distinct(before) {
            assert forall|i: int, j: int| 0 <= i < j < after.len() implies (#[trigger] after[i]).path
                != (#[trigger] after[j]).path by {
                assert(after[i] == before[i]);
                if j < after.len() - 1 {
                    assert(after[j] == before[j]);
                }
            }
        }
    }
    true
}

} // verus!
