//! Character-level text utilities shared by the content loader, the wiki
//! path resolver and the webhook header parser: substring search, splitting
//! on a delimiter, concatenation of split segments, whitespace trimming and
//! lexicographic comparison.
use vstd::prelude::*;
use vstd::string::*;

verus! {

/// The character sequences of a sequence of strings.
pub open spec fn views(ss: Seq<String>) -> Seq<Seq<char>> {
    ss.map_values(|s: String| s@)
}

/// `pat` occurs in `s` at position `i`.
pub open spec fn is_match_at(s: Seq<char>, pat: Seq<char>, i: int) -> bool {
    0 <= i && i + pat.len() <= s.len() && s.subrange(i, i + pat.len() as int) == pat
}

/// Position of the first occurrence of `pat` in `s` at or after `i`,
/// or -1 when there is none.
pub open spec fn spec_find(s: Seq<char>, pat: Seq<char>, i: int) -> int
    decreases s.len() - i,
{
    if pat.len() == 0 || i < 0 || i + pat.len() > s.len() {
        -1
    } else if is_match_at(s, pat, i) {
        i
    } else {
        spec_find(s, pat, i + 1)
    }
}

pub proof fn lemma_find_props(s: Seq<char>, pat: Seq<char>, i: int)
    requires
        0 <= i,
        pat.len() >= 1,
    ensures
        ({
            let f = spec_find(s, pat, i);
            &&& f == -1 ==> forall|j: int| i <= j ==> !is_match_at(s, pat, j)
            &&& f >= 0 ==> i <= f && f + pat.len() <= s.len() && is_match_at(s, pat, f) && (forall|
                j: int,
            | i <= j < f ==> !is_match_at(s, pat, j))
            &&& f >= -1
        }),
    decreases s.len() - i,
{
    if i + pat.len() > s.len() {
    } else if is_match_at(s, pat, i) {
    } else {
        lemma_find_props(s, pat, i + 1);
    }
}

/// `s` split on every non-overlapping leftmost occurrence of `pat`;
/// always at least one segment, and the delimiter itself never appears
/// inside a segment.
pub open spec fn spec_split(s: Seq<char>, pat: Seq<char>) -> Seq<Seq<char>>
    decreases s.len(),
    via spec_split_decreases
{
    if pat.len() == 0 {
        seq![s]
    } else {
        let f = spec_find(s, pat, 0);
        if f < 0 {
            seq![s]
        } else {
            seq![s.subrange(0, f)] + spec_split(
                s.subrange(f + pat.len() as int, s.len() as int),
                pat,
            )
        }
    }
}

#[via_fn]
proof fn spec_split_decreases(s: Seq<char>, pat: Seq<char>) {
    if pat.len() > 0 {
        lemma_find_props(s, pat, 0);
    }
}

/// Matching is invariant under dropping a prefix that lies before the match.
pub proof fn lemma_match_shift(s: Seq<char>, pat: Seq<char>, p: int, j: int)
    requires
        0 <= p <= j,
        p <= s.len(),
    ensures
        is_match_at(s, pat, j) <==> (j + pat.len() <= s.len() && is_match_at(
            s.skip(p),
            pat,
            j - p,
        )),
{
    if j + pat.len() <= s.len() {
        assert(s.skip(p).subrange(j - p, j - p + pat.len() as int) =~= s.subrange(
            j,
            j + pat.len() as int,
        ));
    }
}

/// Searching is invariant under dropping a prefix that lies before the
/// search start.
pub proof fn lemma_find_shift(s: Seq<char>, pat: Seq<char>, p: int, i: int)
    requires
        0 <= p <= i,
        p <= s.len(),
        pat.len() >= 1,
    ensures
        spec_find(s, pat, i) == (if spec_find(s.skip(p), pat, i - p) == -1 {
            -1int
        } else {
            spec_find(s.skip(p), pat, i - p) + p
        }),
    decreases s.len() - i,
{
    lemma_match_shift(s, pat, p, i);
    if i + pat.len() > s.len() {
    } else if is_match_at(s, pat, i) {
    } else {
        lemma_find_shift(s, pat, p, i + 1);
    }
}

/// Whether `pat` occurs in `s` at position `i`, by character comparison.
pub fn match_at(s: &str, pat: &str, i: usize) -> (b: bool)
    requires
        i + pat@.len() <= s@.len(),
        s@.len() <= usize::MAX,
    ensures
        b == is_match_at(s@, pat@, i as int),
{
    let pat_len = pat.unicode_len();
    let mut k: usize = 0;
    while k < pat_len
        invariant
            k <= pat_len,
            pat_len == pat@.len(),
            i + pat_len <= s@.len() <= usize::MAX,
            forall|j: int| 0 <= j < k ==> s@[i + j] == pat@[j],
        decreases pat_len - k,
    {
        if s.get_char(i + k) != pat.get_char(k) {
            proof {
                assert(s@.subrange(i as int, i + pat@.len() as int)[k as int] == s@[i + k]);
            }
            return false;
        }
        k += 1;
    }
    proof {
        assert(s@.subrange(i as int, i + pat@.len() as int) =~= pat@);
    }
    true
}

/// First occurrence of `pat` in `s` at or after `from`.
pub fn find_from(s: &str, pat: &str, from: usize) -> (r: Option<usize>)
    requires
        pat@.len() >= 1,
        from <= s@.len(),
    ensures
        match r {
            Some(j) => spec_find(s@, pat@, from as int) == j as int,
            None => spec_find(s@, pat@, from as int) == -1,
        },
{
    let s_len = s.unicode_len();
    let pat_len = pat.unicode_len();
    if pat_len > s_len {
        return None;
    }
    let mut i = from;
    while i <= s_len - pat_len
        invariant
            pat_len <= s_len,
            s_len == s@.len(),
            pat_len == pat@.len(),
            pat@.len() >= 1,
            from <= i,
            spec_find(s@, pat@, from as int) == spec_find(s@, pat@, i as int),
        decreases s_len - i,
    {
        if match_at(s, pat, i) {
            return Some(i);
        }
        i += 1;
    }
    None
}

/// `s` split on `pat`, as `str::split` does for a non-empty pattern.
pub fn split_str(s: &str, pat: &str) -> (r: Vec<String>)
    requires
        pat@.len() >= 1,
    ensures
        views(r@) == spec_split(s@, pat@),
        r@.len() >= 1,
{
    let s_len = s.unicode_len();
    let pat_len = pat.unicode_len();
    let mut r: Vec<String> = Vec::new();
    let mut pos: usize = 0;
    proof {
        assert(s@.skip(0) =~= s@);
        assert(views(r@) =~= Seq::<Seq<char>>::empty());
        assert(views(r@) + spec_split(s@, pat@) =~= spec_split(s@, pat@));
    }
    loop
        invariant
            pos <= s_len,
            s_len == s@.len(),
            pat_len == pat@.len(),
            pat@.len() >= 1,
            views(r@) + spec_split(s@.skip(pos as int), pat@) == spec_split(s@, pat@),
        decreases s_len - pos,
    {
        let found = find_from(s, pat, pos);
        proof {
            lemma_find_props(s@, pat@, pos as int);
            lemma_find_shift(s@, pat@, pos as int, pos as int);
        }
        match found {
            Some(j) => {
                let piece = s.substring_char(pos, j).to_owned();
                proof {
                    let suffix = s@.skip(pos as int);
                    assert(suffix.subrange(0, j - pos) =~= s@.subrange(pos as int, j as int));
                    assert(suffix.subrange(
                        j - pos + pat@.len() as int,
                        suffix.len() as int,
                    ) =~= s@.skip(j + pat@.len() as int));
                    assert(views(r@.push(piece)) =~= views(r@).push(piece@));
                    assert(views(r@.push(piece)) + spec_split(
                        s@.skip(j + pat@.len() as int),
                        pat@,
                    ) =~= views(r@) + spec_split(s@.skip(pos as int), pat@));
                }
                r.push(piece);
                pos = j + pat_len;
            },
            None => {
                let piece = s.substring_char(pos, s_len).to_owned();
                proof {
                    let suffix = s@.skip(pos as int);
                    assert(piece@ =~= suffix);
                    assert(views(r@.push(piece)) =~= views(r@).push(piece@));
                    assert(views(r@.push(piece)) =~= views(r@) + spec_split(
                        s@.skip(pos as int),
                        pat@,
                    ));
                }
                r.push(piece);
                return r;
            },
        }
    }
}

/// Concatenation of `parts[i..]`.
pub open spec fn concat_from(parts: Seq<Seq<char>>, i: int) -> Seq<char>
    decreases parts.len() - i,
{
    if i < 0 || i >= parts.len() {
        Seq::empty()
    } else {
        parts[i] + concat_from(parts, i + 1)
    }
}

/// Concatenation of the segments of `parts` from index `from` on.
pub fn concat_from_exec(parts: &Vec<String>, from: usize) -> (r: String)
    ensures
        r@ == concat_from(views(parts@), from as int),
{
    let mut r = String::new();
    let mut i = from;
    while i < parts.len()
        invariant
            from <= i,
            r@ + concat_from(views(parts@), i as int) == concat_from(views(parts@), from as int),
        decreases parts@.len() - i,
    {
        let ghost prev = r@;
        r.append(parts[i].as_str());
        proof {
            assert(views(parts@)[i as int] == parts@[i as int]@);
            assert(r@ + concat_from(views(parts@), i + 1) =~= prev + concat_from(
                views(parts@),
                i as int,
            ));
        }
        i += 1;
    }
    proof {
        assert(r@ + concat_from(views(parts@), i as int) =~= r@);
    }
    r
}

/// ASCII whitespace, as trimmed from a signature header value.
pub open spec fn is_space(c: char) -> bool {
    c == ' ' || c == '\t' || c == '\n' || c == '\r'
}

/// Index of the first non-space character at or after `i`.
pub open spec fn trim_start_idx(s: Seq<char>, i: int) -> int
    decreases s.len() - i,
{
    if i < 0 || i >= s.len() {
        s.len() as int
    } else if is_space(s[i]) {
        trim_start_idx(s, i + 1)
    } else {
        i
    }
}

/// One past the last non-space character strictly before `i`.
pub open spec fn trim_end_idx(s: Seq<char>, i: int) -> int
    decreases i,
{
    if i <= 0 || i > s.len() {
        0
    } else if is_space(s[i - 1]) {
        trim_end_idx(s, i - 1)
    } else {
        i
    }
}

/// `s` with leading and trailing whitespace removed.
pub open spec fn spec_trim(s: Seq<char>) -> Seq<char> {
    let a = trim_start_idx(s, 0);
    let b = trim_end_idx(s, s.len() as int);
    if a <= b {
        s.subrange(a, b)
    } else {
        Seq::empty()
    }
}

fn is_space_char(c: char) -> (b: bool)
    ensures
        b == is_space(c),
{
    c == ' ' || c == '\t' || c == '\n' || c == '\r'
}

/// `s` with leading and trailing whitespace removed.
pub fn trim(s: &str) -> (r: String)
    ensures
        r@ == spec_trim(s@),
{
    let len = s.unicode_len();
    let mut a: usize = 0;
    while a < len && is_space_char(s.get_char(a))
        invariant
            a <= len,
            len == s@.len(),
            trim_start_idx(s@, 0) == trim_start_idx(s@, a as int),
        decreases len - a,
    {
        a += 1;
    }
    let mut b: usize = len;
    while b > 0 && is_space_char(s.get_char(b - 1))
        invariant
            b <= len,
            len == s@.len(),
            trim_end_idx(s@, len as int) == trim_end_idx(s@, b as int),
        decreases b,
    {
        b -= 1;
    }
    if a <= b {
        s.substring_char(a, b).to_owned()
    } else {
        String::new()
    }
}

/// Lexicographic (code-point) order on character sequences, the order in
/// which wiki children are listed.
pub open spec fn lex_le(a: Seq<char>, b: Seq<char>) -> bool
    decreases a.len(),
{
    if a.len() == 0 {
        true
    } else if b.len() == 0 {
        false
    } else if (a[0] as int) < (b[0] as int) {
        true
    } else if (a[0] as int) > (b[0] as int) {
        false
    } else {
        lex_le(a.drop_first(), b.drop_first())
    }
}

pub open spec fn lex_lt(a: Seq<char>, b: Seq<char>) -> bool {
    lex_le(a, b) && a != b
}

pub proof fn lemma_lex_total(a: Seq<char>, b: Seq<char>)
    ensures
        lex_le(a, b) || lex_le(b, a),
    decreases a.len(),
{
    if a.len() > 0 && b.len() > 0 && a[0] == b[0] {
        lemma_lex_total(a.drop_first(), b.drop_first());
    }
}

pub proof fn lemma_lex_trans(a: Seq<char>, b: Seq<char>, c: Seq<char>)
    requires
        lex_le(a, b),
        lex_le(b, c),
    ensures
        lex_le(a, c),
    decreases a.len(),
{
    if a.len() > 0 && b.len() > 0 && c.len() > 0 && a[0] == b[0] && b[0] == c[0] {
        lemma_lex_trans(a.drop_first(), b.drop_first(), c.drop_first());
    }
}

pub proof fn lemma_push_contains<A>(s: Seq<A>, c: A, x: A)
    ensures
        s.push(c).contains(x) <==> (s.contains(x) || x == c),
{
    if s.push(c).contains(x) {
        let j = s.push(c).lemma_contains_to_index(x);
        if j < s.len() {
            assert(s[j] == x);
        }
    }
    if s.contains(x) {
        let j = s.lemma_contains_to_index(x);
        assert(s.push(c)[j] == x);
    }
    if x == c {
        assert(s.push(c)[s.len() as int] == x);
    }
}

pub proof fn lemma_take_contains_step<A>(s: Seq<A>, k: int, x: A)
    requires
        0 <= k < s.len(),
    ensures
        s.take(k + 1).contains(x) <==> (s.take(k).contains(x) || x == s[k]),
{
    if s.take(k + 1).contains(x) {
        let j = s.take(k + 1).lemma_contains_to_index(x);
        if j < k {
            assert(s.take(k)[j] == x);
        }
    }
    if s.take(k).contains(x) {
        let j = s.take(k).lemma_contains_to_index(x);
        assert(s.take(k + 1)[j] == x);
    }
    if x == s[k] {
        assert(s.take(k + 1)[k] == x);
    }
}

/// Lexicographic comparison of two strings.
pub fn str_le(a: &str, b: &str) -> (r: bool)
    ensures
        r == lex_le(a@, b@),
{
    let a_len = a.unicode_len();
    let b_len = b.unicode_len();
    let mut i: usize = 0;
    proof {
        assert(a@.skip(0) =~= a@);
        assert(b@.skip(0) =~= b@);
    }
    loop
        invariant
            i <= a_len,
            i <= b_len,
            a_len == a@.len(),
            b_len == b@.len(),
            lex_le(a@, b@) == lex_le(a@.skip(i as int), b@.skip(i as int)),
        decreases a_len - i,
    {
        if i == a_len {
            return true;
        }
        if i == b_len {
            return false;
        }
        let ca = a.get_char(i);
        let cb = b.get_char(i);
        if (ca as u32) < (cb as u32) {
            return true;
        }
        if (ca as u32) > (cb as u32) {
            return false;
        }
        proof {
            assert(a@.skip(i as int).drop_first() =~= a@.skip(i as int + 1));
            assert(b@.skip(i as int).drop_first() =~= b@.skip(i as int + 1));
        }
        i += 1;
    }
}

} // verus!
