//! Character-sequence utilities: substring search, splitting on a delimiter,
//! whitespace trimming and character removal, each with a mathematical model
//! over `Seq<char>` and an executable counterpart proved against it.

use vstd::prelude::*;

verus! {

/// The pattern `p` occurs in `s` starting at index `i`.
pub open spec fn occurs_at(s: Seq<char>, p: Seq<char>, i: int) -> bool {
    0 <= i && i + p.len() <= s.len() && s.subrange(i, i + p.len() as int) == p
}

/// The pattern `p` occurs somewhere in `s`.
pub open spec fn contains_seq(s: Seq<char>, p: Seq<char>) -> bool {
    exists|i: int| occurs_at(s, p, i)
}

/// Index of the first occurrence of `p` in `s` at or after position `i`,
/// or `None` if there is none.
pub open spec fn find_from(s: Seq<char>, p: Seq<char>, i: int) -> Option<int>
    decreases s.len() + 1 - i,
{
    if i < 0 || i + p.len() > s.len() {
        None
    } else if s.subrange(i, i + p.len() as int) == p {
        Some(i)
    } else {
        find_from(s, p, i + 1)
    }
}

/// Index of the first occurrence of `p` in `s`, or `None` if `s` does not
/// contain `p`.
pub open spec fn find_first(s: Seq<char>, p: Seq<char>) -> Option<int> {
    find_from(s, p, 0)
}

/// `find_from` returns the least occurrence position at or after `i`,
/// and `None` exactly when no occurrence lies at or after `i`.
pub proof fn lemma_find_from_correct(s: Seq<char>, p: Seq<char>, i: int)
    requires
        0 <= i,
    ensures
        match find_from(s, p, i) {
            Some(j) => i <= j && occurs_at(s, p, j) && forall|k: int|
                i <= k < j ==> !occurs_at(s, p, k),
            None => forall|k: int| i <= k ==> !occurs_at(s, p, k),
        },
    decreases s.len() + 1 - i,
{
    if i + p.len() > s.len() {
        assert forall|k: int| i <= k implies !occurs_at(s, p, k) by {
            assert(k + p.len() > s.len());
        }
    } else if s.subrange(i, i + p.len() as int) == p {
    } else {
        lemma_find_from_correct(s, p, i + 1);
        assert(!occurs_at(s, p, i));
    }
}

/// `find_first` succeeds exactly on the sequences that contain the pattern.
pub proof fn lemma_find_first_contains(s: Seq<char>, p: Seq<char>)
    ensures
        find_first(s, p) is Some <==> contains_seq(s, p),
{
    lemma_find_from_correct(s, p, 0);
    if find_first(s, p) is Some {
        assert(occurs_at(s, p, find_first(s, p).unwrap()));
    }
}

/// Whether `p` occurs in `s` at exactly position `i`.
fn match_at(s: &Vec<char>, p: &Vec<char>, i: usize) -> (r: bool)
    requires
        i + p@.len() <= s@.len(),
    ensures
        r == occurs_at(s@, p@, i as int),
{
    let sl: usize = s.len();
    let n: usize = p.len();
    let mut j: usize = 0;
    while j < n
        invariant
            n == p@.len(),
            i + n <= s@.len(),
            s@.len() <= usize::MAX,
            j <= n,
            forall|k: int| 0 <= k < j ==> s@[i + k] == p@[k],
        decreases n - j,
    {
        if s[i + j] != p[j] {
            assert(s@.subrange(i as int, i + p@.len() as int)[j as int] != p@[j as int]);
            return false;
        }
        j += 1;
    }
    assert(s@.subrange(i as int, i + p@.len() as int) =~= p@);
    true
}

/// Index of the first occurrence of `p` in `s`, or `None` if `s` does not
/// contain `p`.
pub fn find_sub(s: &Vec<char>, p: &Vec<char>) -> (r: Option<usize>)
    ensures
        match r {
            Some(j) => find_first(s@, p@) == Some(j as int) && occurs_at(s@, p@, j as int),
            None => find_first(s@, p@) is None && !contains_seq(s@, p@),
        },
{
    proof {
        lemma_find_from_correct(s@, p@, 0);
        lemma_find_first_contains(s@, p@);
    }
    if p.len() > s.len() {
        return None;
    }
    if p.len() == 0 {
        assert(s@.subrange(0, 0) =~= p@);
        return Some(0);
    }
    let last_start: usize = s.len() - p.len();
    let mut i: usize = 0;
    while i <= last_start
        invariant
            1 <= p@.len() <= s@.len(),
            s@.len() <= usize::MAX,
            last_start == s@.len() - p@.len(),
            i <= last_start + 1,
            find_from(s@, p@, 0) == find_from(s@, p@, i as int),
        decreases last_start + 1 - i,
    {
        if match_at(s, p, i) {
            return Some(i);
        }
        assert(find_from(s@, p@, i as int) == find_from(s@, p@, i + 1));
        i += 1;
    }
    assert(find_from(s@, p@, i as int) is None);
    None
}

/// The pieces obtained by cutting `s` at every occurrence of the delimiter
/// `d`.  There is always at least one piece; a delimiter at either end
/// contributes an empty piece, as does each pair of adjacent delimiters.
pub open spec fn split_on(s: Seq<char>, d: char) -> Seq<Seq<char>>
    decreases s.len(),
{
    if s.len() == 0 {
        seq![Seq::<char>::empty()]
    } else if s[0] == d {
        seq![Seq::<char>::empty()].add(split_on(s.drop_first(), d))
    } else {
        let rest = split_on(s.drop_first(), d);
        seq![seq![s[0]].add(rest[0])].add(rest.drop_first())
    }
}

/// Splitting always yields at least one piece.
pub proof fn lemma_split_on_len(s: Seq<char>, d: char)
    ensures
        split_on(s, d).len() >= 1,
    decreases s.len(),
{
    if s.len() > 0 {
        lemma_split_on_len(s.drop_first(), d);
    }
}

/// How the pieces change when one character is appended: a delimiter opens a
/// new empty piece, any other character extends the last piece.
pub proof fn lemma_split_on_push(s: Seq<char>, d: char, c: char)
    ensures
        ({
            let r = split_on(s, d);
            split_on(s.push(c), d) == if c == d {
                r.push(Seq::<char>::empty())
            } else {
                r.update(r.len() - 1, r.last().push(c))
            }
        }),
    decreases s.len(),
{
    let r = split_on(s, d);
    lemma_split_on_len(s, d);
    if s.len() == 0 {
        assert(s =~= Seq::<char>::empty());
        assert(r == seq![Seq::<char>::empty()]);
        assert(s.push(c).len() == 1);
        assert(s.push(c)[0] == c);
        assert(s.push(c).drop_first() =~= Seq::<char>::empty());
        assert(split_on(Seq::<char>::empty(), d) == seq![Seq::<char>::empty()]);
        if c == d {
            assert(split_on(s.push(c), d) == seq![Seq::<char>::empty()].add(
                seq![Seq::<char>::empty()],
            ));
            assert(seq![Seq::<char>::empty()].add(seq![Seq::<char>::empty()]) =~= r.push(
                Seq::<char>::empty(),
            ));
        } else {
            let rest = split_on(s.push(c).drop_first(), d);
            assert(rest == seq![Seq::<char>::empty()]);
            assert(split_on(s.push(c), d) == seq![seq![c].add(rest[0])].add(rest.drop_first()));
            assert(seq![c].add(rest[0]) =~= Seq::<char>::empty().push(c));
            assert(seq![seq![c].add(rest[0])].add(rest.drop_first()) =~= r.update(
                0,
                r.last().push(c),
            ));
        }
    } else {
        let t = s.drop_first();
        let q = split_on(t, d);
        lemma_split_on_len(t, d);
        lemma_split_on_push(t, d, c);
        assert(s.push(c)[0] == s[0]);
        assert(s.push(c).drop_first() =~= t.push(c));
        if c == d {
            if s[0] == d {
                assert(split_on(s.push(c), d) =~= r.push(Seq::<char>::empty()));
            } else {
                assert(q.push(Seq::<char>::empty())[0] == q[0]);
                assert(q.push(Seq::<char>::empty()).drop_first() =~= q.drop_first().push(
                    Seq::<char>::empty(),
                ));
                assert(split_on(s.push(c), d) =~= r.push(Seq::<char>::empty()));
            }
        } else {
            let q2 = q.update(q.len() - 1, q.last().push(c));
            if s[0] == d {
                assert(split_on(s.push(c), d) =~= seq![Seq::<char>::empty()].add(q2));
                assert(seq![Seq::<char>::empty()].add(q2) =~= r.update(
                    r.len() - 1,
                    r.last().push(c),
                ));
            } else {
                assert(split_on(s.push(c), d) =~= seq![seq![s[0]].add(q2[0])].add(
                    q2.drop_first(),
                ));
                if q.len() == 1 {
                    assert(q2[0] == q[0].push(c));
                    assert(seq![s[0]].add(q[0].push(c)) =~= seq![s[0]].add(q[0]).push(c));
                    assert(seq![seq![s[0]].add(q2[0])].add(q2.drop_first()) =~= r.update(
                        r.len() - 1,
                        r.last().push(c),
                    ));
                } else {
                    assert(q2[0] == q[0]);
                    assert(seq![seq![s[0]].add(q2[0])].add(q2.drop_first()) =~= r.update(
                        r.len() - 1,
                        r.last().push(c),
                    ));
                }
            }
        }
    }
}

/// Cut `s` into the pieces that lie between occurrences of the delimiter `d`.
pub fn split_on_exec(s: &Vec<char>, d: char) -> (r: Vec<Vec<char>>)
    ensures
        r@.len() == split_on(s@, d).len(),
        forall|k: int| 0 <= k < r@.len() ==> r@[k]@ == split_on(s@, d)[k],
{
    let mut pieces: Vec<Vec<char>> = Vec::new();
    let mut cur: Vec<char> = Vec::new();
    let n: usize = s.len();
    let mut i: usize = 0;
    proof {
        assert(s@.take(0int) =~= Seq::<char>::empty());
    }
    while i < n
        invariant
            n == s@.len(),
            i <= n,
            split_on(s@.take(i as int), d).len() == pieces@.len() + 1,
            forall|k: int|
                0 <= k < pieces@.len() ==> pieces@[k]@ == split_on(s@.take(i as int), d)[k],
            cur@ == split_on(s@.take(i as int), d).last(),
        decreases n - i,
    {
        let ghost prefix = s@.take(i as int);
        let ghost r0 = split_on(prefix, d);
        proof {
            lemma_split_on_push(prefix, d, s@[i as int]);
            assert(s@.take(i + 1) =~= prefix.push(s@[i as int]));
        }
        let ch = s[i];
        if ch == d {
            pieces.push(cur);
            cur = Vec::new();
        } else {
            cur.push(ch);
            proof {
                assert(split_on(s@.take(i + 1), d).last() == r0.last().push(ch));
            }
        }
        i += 1;
    }
    proof {
        assert(s@.take(n as int) =~= s@);
    }
    pieces.push(cur);
    pieces
}

/// The whitespace characters that trimming removes: space, tab, carriage
/// return and line feed.
pub open spec fn is_space(c: char) -> bool {
    c == ' ' || c == '\t' || c == '\r' || c == '\n'
}

/// `s` without its leading whitespace characters.
pub open spec fn trim_start(s: Seq<char>) -> Seq<char>
    decreases s.len(),
{
    if s.len() > 0 && is_space(s[0]) {
        trim_start(s.drop_first())
    } else {
        s
    }
}

/// `s` without its trailing whitespace characters.
pub open spec fn trim_end(s: Seq<char>) -> Seq<char>
    decreases s.len(),
{
    if s.len() > 0 && is_space(s.last()) {
        trim_end(s.drop_last())
    } else {
        s
    }
}

/// `s` without leading and trailing whitespace characters.
pub open spec fn trim(s: Seq<char>) -> Seq<char> {
    trim_end(trim_start(s))
}

/// If every character before `a` is whitespace and the one at `a` (if any)
/// is not, then trimming from the start cuts exactly at `a`.
pub proof fn lemma_trim_start_subrange(s: Seq<char>, a: int)
    requires
        0 <= a <= s.len(),
        forall|k: int| 0 <= k < a ==> is_space(s[k]),
        a == s.len() || !is_space(s[a]),
    ensures
        trim_start(s) == s.subrange(a, s.len() as int),
    decreases a,
{
    if a == 0 {
        assert(s.subrange(0, s.len() as int) =~= s);
    } else {
        let t = s.drop_first();
        lemma_trim_start_subrange(t, a - 1);
        assert(t.subrange(a - 1, t.len() as int) =~= s.subrange(a, s.len() as int));
    }
}

/// If every character from `b` on is whitespace and the one just before `b`
/// (if any) is not, then trimming from the end cuts exactly at `b`.
pub proof fn lemma_trim_end_subrange(s: Seq<char>, b: int)
    requires
        0 <= b <= s.len(),
        forall|k: int| b <= k < s.len() ==> is_space(s[k]),
        b == 0 || !is_space(s[b - 1]),
    ensures
        trim_end(s) == s.subrange(0, b),
    decreases s.len() - b,
{
    if b == s.len() {
        assert(s.subrange(0, b) =~= s);
    } else {
        assert(is_space(s.last()));
        lemma_trim_end_subrange(s.drop_last(), b);
        assert(s.drop_last().subrange(0, b) =~= s.subrange(0, b));
    }
}

/// Trimming from the end never lengthens a sequence.
pub proof fn lemma_trim_end_len(s: Seq<char>)
    ensures
        trim_end(s).len() <= s.len(),
    decreases s.len(),
{
    if s.len() > 0 && is_space(s.last()) {
        lemma_trim_end_len(s.drop_last());
    }
}

/// A trimmed sequence keeps its first character when further trimmed from
/// the end: `trim_end` only ever removes a suffix.
pub proof fn lemma_trim_end_prefix(s: Seq<char>)
    ensures
        trim_end(s) == s.take(trim_end(s).len() as int),
    decreases s.len(),
{
    if s.len() > 0 && is_space(s.last()) {
        lemma_trim_end_prefix(s.drop_last());
        lemma_trim_end_len(s.drop_last());
        assert(s.drop_last().take(trim_end(s).len() as int) =~= s.take(
            trim_end(s).len() as int,
        ));
    } else {
        assert(s.take(s.len() as int) =~= s);
    }
}

/// A nonempty sequence trimmed from the start does not begin with
/// whitespace.
pub proof fn lemma_trim_start_head(s: Seq<char>)
    ensures
        trim_start(s).len() > 0 ==> !is_space(trim_start(s)[0]),
    decreases s.len(),
{
    if s.len() > 0 && is_space(s[0]) {
        lemma_trim_start_head(s.drop_first());
    }
}

/// A nonempty sequence trimmed from the end does not end with whitespace.
pub proof fn lemma_trim_end_last(s: Seq<char>)
    ensures
        trim_end(s).len() > 0 ==> !is_space(trim_end(s).last()),
    decreases s.len(),
{
    if s.len() > 0 && is_space(s.last()) {
        lemma_trim_end_last(s.drop_last());
    }
}

/// Trimming leaves no whitespace at either edge of the result.
pub proof fn lemma_trim_no_edge_whitespace(s: Seq<char>)
    ensures
        trim(s).len() > 0 ==> !is_space(trim(s)[0]),
        trim(s).len() > 0 ==> !is_space(trim(s)[trim(s).len() - 1]),
{
    let ts = trim_start(s);
    lemma_trim_start_head(s);
    lemma_trim_end_last(ts);
    lemma_trim_end_prefix(ts);
    lemma_trim_end_len(ts);
    if trim(s).len() > 0 {
        assert(trim(s)[0] == ts[0]);
    }
}

/// Every character of a quote-stripped sequence differs from the double
/// quote.
pub proof fn lemma_strip_quotes_no_quotes(s: Seq<char>)
    ensures
        forall|k: int| 0 <= k < strip_quotes(s).len() ==> strip_quotes(s)[k] != '"',
    decreases s.len(),
{
    reveal(Seq::filter);
    if s.len() > 0 {
        lemma_strip_quotes_no_quotes(s.drop_last());
    }
}

/// Whether `c` is one of the whitespace characters that trimming removes.
pub fn is_space_char(c: char) -> (r: bool)
    ensures
        r == is_space(c),
{
    c == ' ' || c == '\t' || c == '\r' || c == '\n'
}

/// Copy of the characters of `s` from index `a` (inclusive) to `b`
/// (exclusive).
pub fn subvec(s: &Vec<char>, a: usize, b: usize) -> (r: Vec<char>)
    requires
        a <= b <= s@.len(),
    ensures
        r@ == s@.subrange(a as int, b as int),
{
    let mut r: Vec<char> = Vec::new();
    let mut i: usize = a;
    proof {
        assert(s@.subrange(a as int, a as int) =~= Seq::<char>::empty());
    }
    while i < b
        invariant
            a <= i <= b <= s@.len(),
            r@ == s@.subrange(a as int, i as int),
        decreases b - i,
    {
        r.push(s[i]);
        proof {
            assert(s@.subrange(a as int, i + 1) =~= s@.subrange(a as int, i as int).push(
                s@[i as int],
            ));
        }
        i += 1;
    }
    r
}

/// Copy of `s` without leading and trailing whitespace.
pub fn trim_chars(s: &Vec<char>) -> (r: Vec<char>)
    ensures
        r@ == trim(s@),
{
    let n: usize = s.len();
    let mut lo: usize = 0;
    while lo < n && is_space_char(s[lo])
        invariant
            n == s@.len(),
            lo <= n,
            forall|k: int| 0 <= k < lo ==> is_space(s@[k]),
        decreases n - lo,
    {
        lo += 1;
    }
    proof {
        lemma_trim_start_subrange(s@, lo as int);
    }
    let mut hi: usize = n;
    while hi > lo && is_space_char(s[hi - 1])
        invariant
            n == s@.len(),
            lo <= hi <= n,
            forall|k: int| hi <= k < n ==> is_space(s@[k]),
        decreases hi,
    {
        hi -= 1;
    }
    proof {
        let sub = s@.subrange(lo as int, n as int);
        lemma_trim_end_subrange(sub, hi - lo);
        assert(sub.subrange(0, hi - lo) =~= s@.subrange(lo as int, hi as int));
    }
    subvec(s, lo, hi)
}

/// `s` with every double-quote character removed.
pub open spec fn strip_quotes(s: Seq<char>) -> Seq<char> {
    s.filter(|c: char| c != '"')
}

/// Copy of `s` with every double-quote character removed.
pub fn remove_quotes(s: &Vec<char>) -> (r: Vec<char>)
    ensures
        r@ == strip_quotes(s@),
{
    let mut r: Vec<char> = Vec::new();
    let n: usize = s.len();
    let mut i: usize = 0;
    proof {
        reveal(Seq::filter);
        assert(s@.take(0int) =~= Seq::<char>::empty());
    }
    while i < n
        invariant
            n == s@.len(),
            i <= n,
            r@ == strip_quotes(s@.take(i as int)),
        decreases n - i,
    {
        let c = s[i];
        proof {
            reveal(Seq::filter);
            assert(s@.take(i + 1).drop_last() =~= s@.take(i as int));
            assert(s@.take(i + 1).last() == s@[i as int]);
        }
        if c != '"' {
            r.push(c);
        }
        i += 1;
    }
    proof {
        assert(s@.take(n as int) =~= s@);
    }
    r
}

/// The characters of `s`, in order, as a vector.
pub fn chars_of_str(s: &str) -> (r: Vec<char>)
    ensures
        r@ == s@,
{
    let n: usize = s.unicode_len();
    let mut r: Vec<char> = Vec::new();
    let mut i: usize = 0;
    while i < n
        invariant
            n == s@.len(),
            i <= n,
            r@ == s@.take(i as int),
        decreases n - i,
    {
        r.push(s.get_char(i));
        proof {
            assert(s@.take(i + 1) =~= s@.take(i as int).push(s@[i as int]));
        }
        i += 1;
    }
    proof {
        assert(s@.take(n as int) =~= s@);
    }
    r
}

/// Relies on `String::push`: appends the given character at the end of the
/// string.  vstd gives `String::push` no specification of its own.
#[verifier::external_body]
fn string_push_char(s: &mut String, c: char)
    ensures
        final(s)@ == old(s)@.push(c),
{
    s.push(c);
}

/// A string holding exactly the characters of `v`, in order.
pub fn string_of_chars(v: &Vec<char>) -> (r: String)
    ensures
        r@ == v@,
{
    let mut r = String::new();
    let n: usize = v.len();
    let mut i: usize = 0;
    proof {
        assert(v@.take(0int) =~= Seq::<char>::empty());
    }
    while i < n
        invariant
            n == v@.len(),
            i <= n,
            r@ == v@.take(i as int),
        decreases n - i,
    {
        string_push_char(&mut r, v[i]);
        proof {
            assert(v@.take(i + 1) =~= v@.take(i as int).push(v@[i as int]));
        }
        i += 1;
    }
    proof {
        assert(v@.take(n as int) =~= v@);
    }
    r
}

} // verus!
