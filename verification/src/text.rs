//! Character-level text helpers shared by the VCS output parsers.
//!
//! Command output is handled as a sequence of `char`s. The spec functions here
//! describe what `str::lines`, `str::trim`, `str::split_whitespace`,
//! `str::split` and `u32::from_str` compute, and the executable functions are
//! proved to compute exactly that.
use vstd::prelude::*;

verus! {

// ---------------------------------------------------------------------------
// Specifications
// ---------------------------------------------------------------------------

/// Unicode `White_Space` (what `char::is_whitespace` tests).
pub open spec fn is_ws(c: char) -> bool {
    let u = c as u32;
    ||| 0x09 <= u && u <= 0x0D
    ||| u == 0x20
    ||| u == 0x85
    ||| u == 0xA0
    ||| u == 0x1680
    ||| 0x2000 <= u && u <= 0x200A
    ||| u == 0x2028
    ||| u == 0x2029
    ||| u == 0x202F
    ||| u == 0x205F
    ||| u == 0x3000
}

/// `s` begins with `p`.
pub open spec fn starts_with(s: Seq<char>, p: Seq<char>) -> bool {
    p.len() <= s.len() && s.take(p.len() as int) == p
}

/// Index of the first `c` in `s`, or `s.len()` when there is none.
pub open spec fn find_char(s: Seq<char>, c: char) -> nat
    decreases s.len(),
{
    if s.len() == 0 {
        0
    } else if s[0] == c {
        0
    } else {
        1 + find_char(s.drop_first(), c)
    }
}

/// Index of the first whitespace character in `s`, or `s.len()`.
pub open spec fn find_ws(s: Seq<char>) -> nat
    decreases s.len(),
{
    if s.len() == 0 {
        0
    } else if is_ws(s[0]) {
        0
    } else {
        1 + find_ws(s.drop_first())
    }
}

/// A line without the `'\r'` of a `"\r\n"` line ending.
pub open spec fn strip_cr(l: Seq<char>) -> Seq<char> {
    if l.len() > 0 && l.last() == '\r' {
        l.drop_last()
    } else {
        l
    }
}

/// The lines of `s` as `str::lines` yields them: split at `'\n'`, a `'\r'`
/// right before a `'\n'` removed, and no empty line after a final `'\n'`.
pub open spec fn lines(s: Seq<char>) -> Seq<Seq<char>>
    decreases s.len(),
{
    if s.len() == 0 {
        seq![]
    } else {
        let e = find_char(s, '\n');
        if e >= s.len() {
            seq![s]
        } else {
            seq![strip_cr(s.take(e as int))] + lines(s.skip(e as int + 1))
        }
    }
}

/// Number of leading whitespace characters.
pub open spec fn lead_ws(s: Seq<char>) -> nat
    decreases s.len(),
{
    if s.len() > 0 && is_ws(s[0]) {
        1 + lead_ws(s.drop_first())
    } else {
        0
    }
}

/// Number of trailing whitespace characters.
pub open spec fn trail_ws(s: Seq<char>) -> nat
    decreases s.len(),
{
    if s.len() > 0 && is_ws(s.last()) {
        1 + trail_ws(s.drop_last())
    } else {
        0
    }
}

/// `str::trim_start`.
pub open spec fn trim_start(s: Seq<char>) -> Seq<char> {
    s.skip(lead_ws(s) as int)
}

/// `str::trim_end`.
pub open spec fn trim_end(s: Seq<char>) -> Seq<char> {
    s.take(s.len() - trail_ws(s))
}

/// `str::trim`: whitespace removed at both ends.
pub open spec fn trim(s: Seq<char>) -> Seq<char> {
    trim_end(trim_start(s))
}

/// `str::split_whitespace`: the maximal runs of non-whitespace characters.
pub open spec fn words(s: Seq<char>) -> Seq<Seq<char>>
    decreases s.len(),
{
    if s.len() == 0 {
        seq![]
    } else if is_ws(s[0]) {
        words(s.drop_first())
    } else {
        let k = find_ws(s);
        proof {
            lemma_find_ws_bounds(s);
        }
        seq![s.take(k as int)] + words(s.skip(k as int))
    }
}

/// `str::split(c)`: the pieces between occurrences of `c` (always at least one).
pub open spec fn split_on(s: Seq<char>, c: char) -> Seq<Seq<char>>
    decreases s.len(),
{
    let k = find_char(s, c);
    if k >= s.len() {
        seq![s]
    } else {
        seq![s.take(k as int)] + split_on(s.skip(k as int + 1), c)
    }
}

/// `s.trim_start_matches(p)` for a non-empty pattern: every leading copy of `p` removed.
pub open spec fn strip_all_prefix(s: Seq<char>, p: Seq<char>) -> Seq<char>
    decreases s.len(),
{
    if p.len() > 0 && starts_with(s, p) {
        strip_all_prefix(s.skip(p.len() as int), p)
    } else {
        s
    }
}

/// A decimal digit.
pub open spec fn is_digit(c: char) -> bool {
    '0' <= c && c <= '9'
}

/// The value of a string of decimal digits.
pub open spec fn digits_value(d: Seq<char>) -> nat
    decreases d.len(),
{
    if d.len() == 0 {
        0
    } else {
        digits_value(d.drop_last()) * 10 + ((d.last() as nat) - ('0' as nat)) as nat
    }
}

/// The digits part of an unsigned number: `s` without one leading `'+'`.
pub open spec fn unsigned_digits(s: Seq<char>) -> Seq<char> {
    if s.len() > 0 && s[0] == '+' {
        s.drop_first()
    } else {
        s
    }
}

/// Every character of `d` is a decimal digit.
pub open spec fn all_digits(d: Seq<char>) -> bool {
    forall|i: int| 0 <= i < d.len() ==> #[trigger] is_digit(d[i])
}

/// `s.parse::<u32>()`: an optional `'+'`, then at least one decimal digit, and a
/// value that fits in a `u32`.
pub open spec fn parse_u32(s: Seq<char>) -> Option<u32> {
    let d = unsigned_digits(s);
    if d.len() > 0 && all_digits(d) && digits_value(d) <= u32::MAX {
        Some(digits_value(d) as u32)
    } else {
        None
    }
}

/// `s.parse::<u32>().unwrap_or(0)`.
pub open spec fn parse_u32_or_zero(s: Seq<char>) -> u32 {
    match parse_u32(s) {
        Some(v) => v,
        None => 0,
    }
}

/// Number of lines of `ls` that satisfy `p`.
pub open spec fn count_where(ls: Seq<Seq<char>>, p: spec_fn(Seq<char>) -> bool) -> nat
    decreases ls.len(),
{
    if ls.len() == 0 {
        0
    } else {
        count_where(ls.drop_last(), p) + if p(ls.last()) {
            1nat
        } else {
            0nat
        }
    }
}

// ---------------------------------------------------------------------------
// Lemmas
// ---------------------------------------------------------------------------

pub proof fn lemma_find_ws_bounds(s: Seq<char>)
    ensures
        find_ws(s) <= s.len(),
        s.len() > 0 && !is_ws(s[0]) ==> find_ws(s) >= 1,
    decreases s.len(),
{
    if s.len() > 0 && !is_ws(s[0]) {
        lemma_find_ws_bounds(s.drop_first());
    }
}

pub proof fn lemma_find_char_is(s: Seq<char>, c: char, k: int)
    requires
        0 <= k <= s.len(),
        forall|j: int| 0 <= j < k ==> s[j] != c,
        k == s.len() || s[k] == c,
    ensures
        find_char(s, c) == k,
    decreases k,
{
    if k > 0 {
        lemma_find_char_is(s.drop_first(), c, k - 1);
    }
}

pub proof fn lemma_find_ws_is(s: Seq<char>, k: int)
    requires
        0 <= k <= s.len(),
        forall|j: int| 0 <= j < k ==> !is_ws(s[j]),
        k == s.len() || is_ws(s[k]),
    ensures
        find_ws(s) == k,
    decreases k,
{
    if k > 0 {
        lemma_find_ws_is(s.drop_first(), k - 1);
    }
}

pub proof fn lemma_lead_ws_is(s: Seq<char>, k: int)
    requires
        0 <= k <= s.len(),
        forall|j: int| 0 <= j < k ==> is_ws(s[j]),
        k == s.len() || !is_ws(s[k]),
    ensures
        lead_ws(s) == k,
    decreases k,
{
    if k > 0 {
        lemma_lead_ws_is(s.drop_first(), k - 1);
    }
}

pub proof fn lemma_trail_ws_is(s: Seq<char>, k: int)
    requires
        0 <= k <= s.len(),
        forall|j: int| s.len() - k <= j < s.len() ==> is_ws(s[j]),
        k == s.len() || !is_ws(s[s.len() - k - 1]),
    ensures
        trail_ws(s) == k,
    decreases k,
{
    if k > 0 {
        let t = s.drop_last();
        assert forall|j: int| t.len() - (k - 1) <= j < t.len() implies is_ws(t[j]) by {
            assert(t[j] == s[j]);
        }
        if k - 1 < t.len() {
            assert(t[t.len() - (k - 1) - 1] == s[s.len() - k - 1]);
        }
        lemma_trail_ws_is(t, k - 1);
    }
}

pub proof fn lemma_count_where_push(
    ls: Seq<Seq<char>>,
    l: Seq<char>,
    p: spec_fn(Seq<char>) -> bool,
)
    ensures
        count_where(ls.push(l), p) == count_where(ls, p) + if p(l) {
            1nat
        } else {
            0nat
        },
{
    assert(ls.push(l).drop_last() =~= ls);
}

pub proof fn lemma_count_where_bound(ls: Seq<Seq<char>>, p: spec_fn(Seq<char>) -> bool)
    ensures
        count_where(ls, p) <= ls.len(),
    decreases ls.len(),
{
    if ls.len() > 0 {
        lemma_count_where_bound(ls.drop_last(), p);
    }
}

/// No line is counted exactly when no line satisfies `p`.
pub proof fn lemma_count_where_zero(ls: Seq<Seq<char>>, p: spec_fn(Seq<char>) -> bool)
    ensures
        count_where(ls, p) == 0 <==> forall|k: int| 0 <= k < ls.len() ==> !p(#[trigger] ls[k]),
    decreases ls.len(),
{
    if ls.len() > 0 {
        let init = ls.drop_last();
        lemma_count_where_zero(init, p);
        if count_where(ls, p) == 0 {
            assert forall|k: int| 0 <= k < ls.len() implies !p(#[trigger] ls[k]) by {
                if k < init.len() {
                    assert(init[k] == ls[k]);
                }
            }
        }
        if forall|k: int| 0 <= k < ls.len() ==> !p(#[trigger] ls[k]) {
            assert forall|k: int| 0 <= k < init.len() implies !p(#[trigger] init[k]) by {
                assert(init[k] == ls[k]);
            }
            assert(!p(ls[ls.len() - 1]));
        }
    }
}

/// A string without whitespace is its own trim.
pub proof fn lemma_trim_unchanged(s: Seq<char>)
    requires
        forall|i: int| 0 <= i < s.len() ==> !is_ws(#[trigger] s[i]),
    ensures
        trim(s) == s,
{
    if s.len() > 0 {
        lemma_lead_ws_is(s, 0);
        lemma_trail_ws_is(s, 0);
    } else {
        lemma_lead_ws_is(s, 0);
    }
    assert(trim_start(s) =~= s);
    assert(trim_end(s) =~= s);
}

/// A line whose first character is not whitespace is not blank.
pub proof fn lemma_trim_keeps_first(s: Seq<char>)
    requires
        s.len() > 0,
        !is_ws(s[0]),
    ensures
        trim(s).len() > 0,
{
    assert(trim_start(s) =~= s);
    lemma_trail_ws_below(s);
}

proof fn lemma_trail_ws_below(s: Seq<char>)
    requires
        s.len() > 0,
        !is_ws(s[0]),
    ensures
        trail_ws(s) < s.len(),
    decreases s.len(),
{
    if s.len() > 1 && is_ws(s.last()) {
        assert(s.drop_last()[0] == s[0]);
        lemma_trail_ws_below(s.drop_last());
    }
}

/// Predicates that agree on every line count the same lines.
pub proof fn lemma_count_where_ext(
    ls: Seq<Seq<char>>,
    p: spec_fn(Seq<char>) -> bool,
    q: spec_fn(Seq<char>) -> bool,
)
    requires
        forall|k: int| 0 <= k < ls.len() ==> p(#[trigger] ls[k]) == q(ls[k]),
    ensures
        count_where(ls, p) == count_where(ls, q),
    decreases ls.len(),
{
    if ls.len() > 0 {
        let init = ls.drop_last();
        assert forall|k: int| 0 <= k < init.len() implies p(#[trigger] init[k]) == q(init[k]) by {
            assert(init[k] == ls[k]);
        }
        lemma_count_where_ext(init, p, q);
        assert(p(ls[ls.len() - 1]) == q(ls[ls.len() - 1]));
    }
}

/// A line that starts with a non-empty prefix starts with its first character.
pub proof fn lemma_starts_with_first(l: Seq<char>, p: Seq<char>)
    requires
        starts_with(l, p),
        p.len() > 0,
    ensures
        l.len() > 0 && l[0] == p[0],
{
    assert(l.take(p.len() as int)[0] == l[0]);
}

pub proof fn lemma_split_on_nonempty(s: Seq<char>, c: char)
    ensures
        split_on(s, c).len() >= 1,
{
}

// ---------------------------------------------------------------------------
// Executable helpers
// ---------------------------------------------------------------------------

/// `char::is_whitespace`.
pub fn is_whitespace(c: char) -> (r: bool)
    ensures
        r == is_ws(c),
{
    let u = c as u32;
    (0x09 <= u && u <= 0x0D) || u == 0x20 || u == 0x85 || u == 0xA0 || u == 0x1680 || (0x2000
        <= u && u <= 0x200A) || u == 0x2028 || u == 0x2029 || u == 0x202F || u == 0x205F || u
        == 0x3000
}

/// The characters of `s`, in order.
pub fn chars_of(s: &str) -> (v: Vec<char>)
    ensures
        v@ == s@,
{
    let mut v: Vec<char> = Vec::new();
    proof {
        broadcast use vstd::string::axiom_spec_iter;

    }
    for c in it: s.chars()
        invariant
            it.seq() == s@,
            v@ == it.seq().take(it.index() as int),
    {
        v.push(c);
        assert(v@ =~= it.seq().take(it.index() as int + 1));
    }
    v
}

/// `String::push`: appends one character.
#[verifier::external_body]
fn push_char(s: &mut String, c: char)
    ensures
        final(s)@ == old(s)@.push(c),
{
    s.push(c);
}

/// A `String` holding exactly the characters of `v`.
pub fn string_from_chars(v: &Vec<char>) -> (r: String)
    ensures
        r@ == v@,
{
    let mut r = String::new();
    let n = v.len();
    for i in 0..n
        invariant
            n == v@.len(),
            r@ == v@.take(i as int),
    {
        push_char(&mut r, v[i]);
        assert(r@ =~= v@.take(i as int + 1));
    }
    assert(v@.take(n as int) =~= v@);
    r
}

/// The characters `v[lo..hi]`.
pub fn sub_chars(v: &Vec<char>, lo: usize, hi: usize) -> (r: Vec<char>)
    requires
        lo <= hi <= v@.len(),
    ensures
        r@ == v@.subrange(lo as int, hi as int),
{
    let mut r: Vec<char> = Vec::new();
    let mut j = lo;
    while j < hi
        invariant
            lo <= j <= hi,
            hi <= v@.len(),
            r@ == v@.subrange(lo as int, j as int),
        decreases hi - j,
    {
        r.push(v[j]);
        j += 1;
        assert(r@ =~= v@.subrange(lo as int, j as int));
    }
    r
}

/// Whether `s` begins with `p`.
pub fn has_prefix(s: &Vec<char>, p: &Vec<char>) -> (r: bool)
    ensures
        r == starts_with(s@, p@),
{
    if p.len() > s.len() {
        return false;
    }
    let n = p.len();
    for i in 0..n
        invariant
            n == p@.len(),
            n <= s@.len(),
            forall|j: int| 0 <= j < i ==> s@[j] == p@[j],
    {
        if s[i] != p[i] {
            assert(s@.take(n as int)[i as int] != p@[i as int]);
            return false;
        }
    }
    assert(s@.take(n as int) =~= p@);
    true
}

/// Whether `s` begins with the characters of the literal `p`.
pub fn has_prefix_str(s: &Vec<char>, p: &str) -> (r: bool)
    ensures
        r == starts_with(s@, p@),
{
    let pv = chars_of(p);
    has_prefix(s, &pv)
}

/// `s.strip_prefix(p)`.
pub fn strip_prefix_str(s: &Vec<char>, p: &str) -> (r: Option<Vec<char>>)
    ensures
        match r {
            Some(rest) => starts_with(s@, p@) && rest@ == s@.skip(p@.len() as int),
            None => !starts_with(s@, p@),
        },
{
    let pv = chars_of(p);
    if has_prefix(s, &pv) {
        let rest = sub_chars(s, pv.len(), s.len());
        assert(rest@ =~= s@.skip(p@.len() as int));
        Some(rest)
    } else {
        None
    }
}

/// Whether two character vectors are equal.
pub fn chars_eq(a: &Vec<char>, b: &Vec<char>) -> (r: bool)
    ensures
        r == (a@ == b@),
{
    if a.len() != b.len() {
        return false;
    }
    let r = has_prefix(a, b);
    assert(a@ =~= a@.take(b@.len() as int));
    r
}

/// Whether `v` is exactly the literal `p`.
pub fn chars_eq_str(v: &Vec<char>, p: &str) -> (r: bool)
    ensures
        r == (v@ == p@),
{
    let pv = chars_of(p);
    chars_eq(v, &pv)
}

/// `str::lines`, as character vectors.
pub fn split_lines(cs: &Vec<char>) -> (r: Vec<Vec<char>>)
    ensures
        r@.len() == lines(cs@).len(),
        forall|i: int| 0 <= i < r@.len() ==> (#[trigger] r@[i])@ == lines(cs@)[i],
{
    let n = cs.len();
    let mut out: Vec<Vec<char>> = Vec::new();
    let ghost mut done: Seq<Seq<char>> = seq![];
    let mut pos: usize = 0;
    assert(cs@.skip(0) =~= cs@);
    while pos < n
        invariant
            pos <= n,
            n == cs@.len(),
            out@.len() == done.len(),
            forall|i: int| 0 <= i < out@.len() ==> (#[trigger] out@[i])@ == done[i],
            done + lines(cs@.skip(pos as int)) == lines(cs@),
        decreases n - pos,
    {
        let ghost t = cs@.skip(pos as int);
        let mut e = pos;
        while e < n && cs[e] != '\n'
            invariant
                pos <= e <= n,
                n == cs@.len(),
                forall|j: int| pos <= j < e ==> cs@[j] != '\n',
            decreases n - e,
        {
            e += 1;
        }
        proof {
            assert forall|j: int| 0 <= j < e - pos implies t[j] != '\n' by {
                assert(t[j] == cs@[pos + j]);
            }
            if e < n {
                assert(t[e - pos] == cs@[e as int]);
            }
            lemma_find_char_is(t, '\n', e - pos);
        }
        if e < n {
            let end = if e > pos && cs[e - 1] == '\r' {
                e - 1
            } else {
                e
            };
            let line = sub_chars(cs, pos, end);
            proof {
                let raw = t.take(e - pos);
                assert(raw =~= cs@.subrange(pos as int, e as int));
                if e > pos && cs@[e - 1] == '\r' {
                    assert(strip_cr(raw) =~= line@);
                } else {
                    assert(strip_cr(raw) =~= line@);
                }
                assert(t.skip(e - pos + 1) =~= cs@.skip(e + 1));
                assert(lines(t) == seq![strip_cr(raw)] + lines(cs@.skip(e + 1)));
                done = done.push(line@);
                assert(done + lines(cs@.skip(e + 1)) =~= lines(cs@));
            }
            out.push(line);
            pos = e + 1;
        } else {
            let line = sub_chars(cs, pos, n);
            proof {
                assert(line@ =~= t);
                assert(lines(t) == seq![t]);
                assert(cs@.skip(n as int) =~= Seq::<char>::empty());
                done = done.push(line@);
                assert(done + lines(cs@.skip(n as int)) =~= lines(cs@));
            }
            out.push(line);
            pos = n;
        }
    }
    proof {
        assert(cs@.skip(n as int) =~= Seq::<char>::empty());
        assert(done =~= lines(cs@));
    }
    out
}

/// `str::trim`.
pub fn trim_chars(v: &Vec<char>) -> (r: Vec<char>)
    ensures
        r@ == trim(v@),
        r@.len() <= v@.len(),
{
    let n = v.len();
    let mut a: usize = 0;
    while a < n && is_whitespace(v[a])
        invariant
            a <= n,
            n == v@.len(),
            forall|j: int| 0 <= j < a ==> is_ws(v@[j]),
        decreases n - a,
    {
        a += 1;
    }
    proof {
        lemma_lead_ws_is(v@, a as int);
    }
    let ghost t = trim_start(v@);
    assert(t =~= v@.skip(a as int));
    let mut b: usize = n;
    while b > a && is_whitespace(v[b - 1])
        invariant
            a <= b <= n,
            n == v@.len(),
            forall|j: int| b <= j < n ==> is_ws(v@[j]),
        decreases b,
    {
        b -= 1;
    }
    proof {
        assert forall|j: int| t.len() - (n - b) <= j < t.len() implies is_ws(t[j]) by {
            assert(t[j] == v@[a + j]);
        }
        if n - b < t.len() {
            assert(t[t.len() - (n - b) - 1] == v@[b - 1]);
        }
        lemma_trail_ws_is(t, (n - b) as int);
    }
    let r = sub_chars(v, a, b);
    assert(r@ =~= trim(v@));
    r
}

/// `str::split_whitespace`, as character vectors.
pub fn split_words(v: &Vec<char>) -> (r: Vec<Vec<char>>)
    ensures
        r@.len() == words(v@).len(),
        forall|i: int| 0 <= i < r@.len() ==> (#[trigger] r@[i])@ == words(v@)[i],
{
    let n = v.len();
    let mut out: Vec<Vec<char>> = Vec::new();
    let ghost mut done: Seq<Seq<char>> = seq![];
    let mut pos: usize = 0;
    assert(v@.skip(0) =~= v@);
    while pos < n
        invariant
            pos <= n,
            n == v@.len(),
            out@.len() == done.len(),
            forall|i: int| 0 <= i < out@.len() ==> (#[trigger] out@[i])@ == done[i],
            done + words(v@.skip(pos as int)) == words(v@),
        decreases n - pos,
    {
        let ghost t = v@.skip(pos as int);
        if is_whitespace(v[pos]) {
            proof {
                assert(t[0] == v@[pos as int]);
                assert(t.drop_first() =~= v@.skip(pos + 1));
            }
            pos += 1;
        } else {
            let mut e = pos + 1;
            while e < n && !is_whitespace(v[e])
                invariant
                    pos < e <= n,
                    n == v@.len(),
                    forall|j: int| pos <= j < e ==> !is_ws(v@[j]),
                decreases n - e,
            {
                e += 1;
            }
            let w = sub_chars(v, pos, e);
            proof {
                assert forall|j: int| 0 <= j < e - pos implies !is_ws(t[j]) by {
                    assert(t[j] == v@[pos + j]);
                }
                if e < n {
                    assert(t[e - pos] == v@[e as int]);
                }
                lemma_find_ws_is(t, e - pos);
                assert(t[0] == v@[pos as int]);
                assert(w@ =~= t.take(e - pos));
                assert(t.skip(e - pos) =~= v@.skip(e as int));
                assert(words(t) == seq![w@] + words(v@.skip(e as int)));
                done = done.push(w@);
                assert(done + words(v@.skip(e as int)) =~= words(v@));
            }
            out.push(w);
            pos = e;
        }
    }
    proof {
        assert(v@.skip(n as int) =~= Seq::<char>::empty());
        assert(done =~= words(v@));
    }
    out
}

/// `s.split(c)`, as character vectors.
pub fn split_chars(v: &Vec<char>, c: char) -> (r: Vec<Vec<char>>)
    ensures
        r@.len() == split_on(v@, c).len(),
        forall|i: int| 0 <= i < r@.len() ==> (#[trigger] r@[i])@ == split_on(v@, c)[i],
{
    let n = v.len();
    let mut out: Vec<Vec<char>> = Vec::new();
    let ghost mut done: Seq<Seq<char>> = seq![];
    let mut pos: usize = 0;
    assert(v@.skip(0) =~= v@);
    loop
        invariant
            pos <= n,
            n == v@.len(),
            out@.len() == done.len(),
            forall|i: int| 0 <= i < out@.len() ==> (#[trigger] out@[i])@ == done[i],
            done + split_on(v@.skip(pos as int), c) == split_on(v@, c),
        decreases n - pos,
    {
        let ghost t = v@.skip(pos as int);
        let mut k = pos;
        while k < n && v[k] != c
            invariant
                pos <= k <= n,
                n == v@.len(),
                forall|j: int| pos <= j < k ==> v@[j] != c,
            decreases n - k,
        {
            k += 1;
        }
        proof {
            assert forall|j: int| 0 <= j < k - pos implies t[j] != c by {
                assert(t[j] == v@[pos + j]);
            }
            if k < n {
                assert(t[k - pos] == v@[k as int]);
            }
            lemma_find_char_is(t, c, k - pos);
        }
        let piece = sub_chars(v, pos, k);
        proof {
            assert(piece@ =~= t.take(k - pos));
            done = done.push(piece@);
        }
        out.push(piece);
        if k >= n {
            proof {
                assert(piece@ =~= t);
                assert(done =~= split_on(v@, c));
            }
            return out;
        }
        proof {
            assert(t.skip(k - pos + 1) =~= v@.skip(k + 1));
            assert(done + split_on(v@.skip(k + 1), c) =~= split_on(v@, c));
        }
        pos = k + 1;
    }
}

/// `s.parse::<u32>()`.
pub fn parse_u32_chars(s: &Vec<char>) -> (r: Option<u32>)
    ensures
        r == parse_u32(s@),
{
    let n = s.len();
    let start: usize = if n > 0 && s[0] == '+' {
        1
    } else {
        0
    };
    let ghost d = unsigned_digits(s@);
    assert(d =~= s@.skip(start as int));
    if start >= n {
        return None;
    }
    let cap: u64 = 0x1_0000_0000;
    let mut acc: u64 = 0;
    let mut i = start;
    while i < n
        invariant
            start <= i <= n,
            n == s@.len(),
            d == s@.skip(start as int),
            d == unsigned_digits(s@),
            cap == 0x1_0000_0000,
            forall|j: int| start <= j < i ==> is_digit(s@[j]),
            acc == if digits_value(d.take(i - start)) < cap {
                digits_value(d.take(i - start))
            } else {
                cap as nat
            },
        decreases n - i,
    {
        let c = s[i];
        if !('0' <= c && c <= '9') {
            proof {
                assert(d[i - start] == s@[i as int]);
                assert(!is_digit(d[i - start]));
            }
            return None;
        }
        let dg = (c as u32 - '0' as u32) as u64;
        proof {
            let p = d.take(i - start + 1);
            assert(p.drop_last() =~= d.take(i - start));
            assert(p.last() == c);
        }
        let next = acc * 10 + dg;
        acc = if next >= cap {
            cap
        } else {
            next
        };
        i += 1;
    }
    proof {
        assert(d.take(n - start) =~= d);
        assert forall|j: int| 0 <= j < d.len() implies #[trigger] is_digit(d[j]) by {
            assert(d[j] == s@[start + j]);
        }
    }
    if acc >= cap {
        None
    } else {
        Some(acc as u32)
    }
}

} // verus!
