//! Character-sequence helpers shared by the parsers and renderers.
use vstd::prelude::*;

verus! {

broadcast use vstd::string::axiom_spec_iter;

/// The characters of `s`, in order.
pub fn chars_of(s: &str) -> (r: Vec<char>)
    ensures
        r@ == s@,
{
    let mut r: Vec<char> = Vec::new();
    for c in it: s.chars()
        invariant
            it.seq() == s@,
            r@ == it.seq().subrange(0, it.index() as int),
    {
        r.push(c);
    }
    r
}

/// Relies on std's `FromIterator<&char> for String`: the string holds the
/// characters in order.
#[verifier::external_body]
pub(crate) fn string_of(v: &[char]) -> (r: String)
    ensures
        r@ == v@,
{
    v.iter().collect()
}

/// `s` with every occurrence of the non-empty `pat` replaced by `rep`,
/// occurrences taken left to right without overlap.
pub open spec fn replaced(s: Seq<char>, pat: Seq<char>, rep: Seq<char>) -> Seq<char>
    decreases s.len(),
{
    if pat.len() == 0 || s.len() < pat.len() {
        s
    } else if s.subrange(0, pat.len() as int) == pat {
        rep + replaced(s.subrange(pat.len() as int, s.len() as int), pat, rep)
    } else {
        seq![s[0]] + replaced(s.subrange(1, s.len() as int), pat, rep)
    }
}

/// Whether `pat` occurs in `s` starting at index `i`.
pub open spec fn occurs_at(s: Seq<char>, i: int, pat: Seq<char>) -> bool {
    0 <= i && i + pat.len() <= s.len() && s.subrange(i, i + pat.len()) == pat
}

pub fn matches_at(s: &[char], i: usize, pat: &[char]) -> (r: bool)
    ensures
        r == occurs_at(s@, i as int, pat@),
{
    if i > s.len() || pat.len() > s.len() - i {
        return false;
    }
    let mut k: usize = 0;
    while k < pat.len()
        invariant
            i + pat.len() <= s.len(),
            k <= pat.len(),
            forall|j: int| 0 <= j < k ==> s@[i + j] == pat@[j],
        decreases pat.len() - k,
    {
        if s[i + k] != pat[k] {
            assert(s@.subrange(i as int, i + pat.len())[k as int] != pat@[k as int]);
            return false;
        }
        k = k + 1;
    }
    assert(s@.subrange(i as int, i + pat.len()) =~= pat@);
    true
}

proof fn lemma_replaced_step(s: Seq<char>, i: int, pat: Seq<char>, rep: Seq<char>)
    requires
        0 <= i < s.len(),
        pat.len() > 0,
    ensures
        occurs_at(s, i, pat) ==> replaced(s.subrange(i, s.len() as int), pat, rep) == rep
            + replaced(s.subrange(i + pat.len(), s.len() as int), pat, rep),
        !occurs_at(s, i, pat) ==> replaced(s.subrange(i, s.len() as int), pat, rep) == seq![s[i]]
            + replaced(s.subrange(i + 1, s.len() as int), pat, rep),
{
    let t = s.subrange(i, s.len() as int);
    if t.len() >= pat.len() {
        assert(t.subrange(0, pat.len() as int) =~= s.subrange(i, i + pat.len()));
        assert(t.subrange(pat.len() as int, t.len() as int) =~= s.subrange(
            i + pat.len(),
            s.len() as int,
        ));
    }
    assert(t.subrange(1, t.len() as int) =~= s.subrange(i + 1, s.len() as int));
    if !occurs_at(s, i, pat) && t.len() < pat.len() {
        // a suffix too short to hold `pat` is kept as it is
        lemma_replaced_short(t.subrange(1, t.len() as int), pat, rep);
        assert(t =~= seq![s[i]] + t.subrange(1, t.len() as int));
    }
}

proof fn lemma_replaced_short(s: Seq<char>, pat: Seq<char>, rep: Seq<char>)
    requires
        s.len() < pat.len(),
    ensures
        replaced(s, pat, rep) == s,
{
}

/// Replaces every occurrence of `pat` in `s` by `rep`, left to right.
pub fn replace_all(s: &[char], pat: &[char], rep: &[char]) -> (r: Vec<char>)
    requires
        pat@.len() > 0,
    ensures
        r@ == replaced(s@, pat@, rep@),
{
    let mut out: Vec<char> = Vec::new();
    let mut i: usize = 0;
    assert(s@.subrange(0, s@.len() as int) =~= s@);
    assert(out@ + replaced(s@, pat@, rep@) =~= replaced(s@, pat@, rep@));
    while i < s.len()
        invariant
            pat@.len() > 0,
            i <= s.len(),
            out@ + replaced(s@.subrange(i as int, s@.len() as int), pat@, rep@) == replaced(
                s@,
                pat@,
                rep@,
            ),
        decreases s.len() - i,
    {
        proof {
            lemma_replaced_step(s@, i as int, pat@, rep@);
        }
        let ghost before = out@;
        if matches_at(s, i, pat) {
            let mut k: usize = 0;
            while k < rep.len()
                invariant
                    k <= rep.len(),
                    out@ == before + rep@.subrange(0, k as int),
                decreases rep.len() - k,
            {
                out.push(rep[k]);
                k = k + 1;
            }
            assert(rep@.subrange(0, rep@.len() as int) =~= rep@);
            assert(before + (rep@ + replaced(s@.subrange(i + pat@.len(), s@.len() as int), pat@, rep@))
                =~= (before + rep@) + replaced(s@.subrange(i + pat@.len(), s@.len() as int), pat@, rep@));
            i = i + pat.len();
        } else {
            out.push(s[i]);
            assert(before + (seq![s@[i as int]] + replaced(s@.subrange(i + 1, s@.len() as int), pat@, rep@))
                =~= out@ + replaced(s@.subrange(i + 1, s@.len() as int), pat@, rep@));
            i = i + 1;
        }
    }
    assert(s@.subrange(i as int, s@.len() as int) =~= Seq::<char>::empty());
    assert(out@ + Seq::<char>::empty() =~= out@);
    out
}

/// Unicode `White_Space`, the set that `char::is_whitespace` documents.
pub open spec fn is_space(c: char) -> bool {
    let n = c as u32;
    (0x9 <= n <= 0xD) || n == 0x20 || n == 0x85 || n == 0xA0 || n == 0x1680 || (0x2000 <= n
        <= 0x200A) || n == 0x2028 || n == 0x2029 || n == 0x202F || n == 0x205F || n == 0x3000
}

pub fn space(c: char) -> (r: bool)
    ensures
        r == is_space(c),
{
    let n = c as u32;
    (0x9 <= n && n <= 0xD) || n == 0x20 || n == 0x85 || n == 0xA0 || n == 0x1680 || (0x2000 <= n
        && n <= 0x200A) || n == 0x2028 || n == 0x2029 || n == 0x202F || n == 0x205F || n == 0x3000
}

/// `s` without its leading white space.
pub open spec fn trim_start(s: Seq<char>) -> Seq<char>
    decreases s.len(),
{
    if s.len() > 0 && is_space(s[0]) {
        trim_start(s.drop_first())
    } else {
        s
    }
}

/// `s` without its trailing white space.
pub open spec fn trim_end(s: Seq<char>) -> Seq<char>
    decreases s.len(),
{
    if s.len() > 0 && is_space(s.last()) {
        trim_end(s.drop_last())
    } else {
        s
    }
}

/// `s` without leading and trailing white space, as `str::trim` gives it.
pub open spec fn trimmed(s: Seq<char>) -> Seq<char> {
    trim_end(trim_start(s))
}

/// Removes leading and trailing white space.
pub fn trim(s: &[char]) -> (r: Vec<char>)
    ensures
        r@ == trimmed(s@),
{
    let n = s.len();
    let mut a: usize = 0;
    assert(s@.subrange(0, n as int) =~= s@);
    while a < n && space(s[a])
        invariant
            a <= n == s@.len(),
            trim_start(s@.subrange(a as int, n as int)) == trim_start(s@),
        decreases n - a,
    {
        assert(s@.subrange(a as int, n as int).drop_first() =~= s@.subrange(a + 1, n as int));
        a = a + 1;
    }
    assert(trim_start(s@) == s@.subrange(a as int, n as int));
    let mut b: usize = n;
    while b > a && space(s[b - 1])
        invariant
            a <= b <= n == s@.len(),
            trim_end(s@.subrange(a as int, b as int)) == trimmed(s@),
        decreases b,
    {
        assert(s@.subrange(a as int, b as int).drop_last() =~= s@.subrange(a as int, b - 1));
        b = b - 1;
    }
    let mut r: Vec<char> = Vec::new();
    let mut k: usize = a;
    while k < b
        invariant
            a <= k <= b <= n == s@.len(),
            r@ == s@.subrange(a as int, k as int),
        decreases b - k,
    {
        r.push(s[k]);
        assert(r@ =~= s@.subrange(a as int, k + 1));
        k = k + 1;
    }
    r
}

/// The character code that `eq_ignore_ascii_case` compares: ASCII upper-case
/// letters are taken as their lower-case form, every other character as it is.
pub open spec fn ascii_folded(c: char) -> int {
    if 65 <= c as u32 <= 90 {
        (c as u32) + 32int
    } else {
        c as u32 as int
    }
}

/// `a` and `b` are equal up to ASCII letter case.
pub open spec fn eq_ascii_fold(a: Seq<char>, b: Seq<char>) -> bool {
    a.len() == b.len() && forall|i: int| 0 <= i < a.len() ==> ascii_folded(a[i]) == ascii_folded(b[i])
}

pub fn eq_ignore_case(a: &[char], b: &[char]) -> (r: bool)
    ensures
        r == eq_ascii_fold(a@, b@),
{
    if a.len() != b.len() {
        return false;
    }
    let mut i: usize = 0;
    while i < a.len()
        invariant
            a@.len() == b@.len(),
            i <= a@.len(),
            forall|j: int| 0 <= j < i ==> ascii_folded(a@[j]) == ascii_folded(b@[j]),
        decreases a.len() - i,
    {
        let x = a[i] as u32;
        let y = b[i] as u32;
        let fx = if 65 <= x && x <= 90 { x + 32 } else { x };
        let fy = if 65 <= y && y <= 90 { y + 32 } else { y };
        if fx != fy {
            return false;
        }
        i = i + 1;
    }
    true
}

/// The index of the first `c` in `s`, if any.
pub fn find_char(s: &[char], c: char) -> (r: Option<usize>)
    ensures
        match r {
            Some(i) => i < s@.len() && s@[i as int] == c && forall|j: int|
                0 <= j < i ==> s@[j] != c,
            None => forall|j: int| 0 <= j < s@.len() ==> s@[j] != c,
        },
{
    let mut i: usize = 0;
    while i < s.len()
        invariant
            i <= s@.len(),
            forall|j: int| 0 <= j < i ==> s@[j] != c,
        decreases s.len() - i,
    {
        if s[i] == c {
            return Some(i);
        }
        i = i + 1;
    }
    None
}

/// The characters of `s` from `a` up to `b`.
pub fn slice_of(s: &[char], a: usize, b: usize) -> (r: Vec<char>)
    requires
        a <= b <= s@.len(),
    ensures
        r@ == s@.subrange(a as int, b as int),
{
    let mut r: Vec<char> = Vec::new();
    let mut k: usize = a;
    while k < b
        invariant
            a <= k <= b <= s@.len(),
            r@ == s@.subrange(a as int, k as int),
        decreases b - k,
    {
        r.push(s[k]);
        assert(r@ =~= s@.subrange(a as int, k + 1));
        k = k + 1;
    }
    r
}

/// Appends `t` to `out`.
pub fn push_all(out: &mut Vec<char>, t: &[char])
    ensures
        final(out)@ == old(out)@ + t@,
{
    let mut k: usize = 0;
    while k < t.len()
        invariant
            k <= t@.len(),
            out@ == old(out)@ + t@.subrange(0, k as int),
        decreases t.len() - k,
    {
        out.push(t[k]);
        assert(out@ =~= old(out)@ + t@.subrange(0, k + 1));
        k = k + 1;
    }
    assert(t@.subrange(0, t@.len() as int) =~= t@);
}

/// The index of the first `c` in `s`, or the length of `s` where it has none.
pub open spec fn index_of(s: Seq<char>, c: char) -> int
    decreases s.len(),
{
    if s.len() == 0 {
        0
    } else if s[0] == c {
        0
    } else {
        1 + index_of(s.drop_first(), c)
    }
}

/// The pieces of `s` between occurrences of `c`, as `str::split` gives them.
pub open spec fn split_on(s: Seq<char>, c: char) -> Seq<Seq<char>>
    decreases s.len(),
{
    let i = index_of(s, c);
    if 0 <= i < s.len() {
        seq![s.subrange(0, i)] + split_on(s.subrange(i + 1, s.len() as int), c)
    } else {
        seq![s]
    }
}

/// `s` holds no `c`.
pub open spec fn lacks(s: Seq<char>, c: char) -> bool {
    forall|i: int| 0 <= i < s.len() ==> s[i] != c
}

proof fn lemma_index_of(s: Seq<char>, c: char, p: int, q: int)
    requires
        0 <= p <= q <= s.len(),
        forall|j: int| p <= j < q ==> s[j] != c,
        q == s.len() || s[q] == c,
    ensures
        index_of(s.subrange(p, s.len() as int), c) == q - p,
    decreases q - p,
{
    let t = s.subrange(p, s.len() as int);
    if p < q {
        assert(t.drop_first() =~= s.subrange(p + 1, s.len() as int));
        lemma_index_of(s, c, p + 1, q);
    }
}

/// Splits `s` at every `c`.
pub fn split_char(s: &[char], c: char) -> (r: Vec<Vec<char>>)
    ensures
        r@.len() == split_on(s@, c).len(),
        forall|i: int| 0 <= i < r@.len() ==> #[trigger] r@[i]@ == split_on(s@, c)[i],
{
    let n = s.len();
    let mut r: Vec<Vec<char>> = Vec::new();
    let mut p: usize = 0;
    assert(s@.subrange(0, n as int) =~= s@);
    loop
        invariant
            n == s@.len(),
            p <= n,
            r@.len() + split_on(s@.subrange(p as int, n as int), c).len() == split_on(s@, c).len(),
            forall|i: int| 0 <= i < r@.len() ==> #[trigger] r@[i]@ == split_on(s@, c)[i],
            forall|i: int|
                0 <= i < split_on(s@.subrange(p as int, n as int), c).len() ==> #[trigger] split_on(
                    s@.subrange(p as int, n as int),
                    c,
                )[i] == split_on(s@, c)[r@.len() + i],
        decreases n - p,
    {
        let ghost rest = s@.subrange(p as int, n as int);
        let mut q: usize = p;
        while q < n && s[q] != c
            invariant
                p <= q <= n == s@.len(),
                forall|j: int| p <= j < q ==> s@[j] != c,
            decreases n - q,
        {
            q = q + 1;
        }
        proof {
            lemma_index_of(s@, c, p as int, q as int);
            assert(rest.subrange(0, q - p) =~= s@.subrange(p as int, q as int));
        }
        let piece = slice_of(s, p, q);
        let ghost before = r@;
        r.push(piece);
        if q == n {
            proof {
                assert(rest.subrange(0, q - p) =~= rest);
                assert(split_on(rest, c) =~= seq![rest]);
                assert forall|i: int| 0 <= i < r@.len() implies #[trigger] r@[i]@ == split_on(s@, c)[i] by {
                    if i == before.len() {
                        assert(split_on(rest, c)[0] == split_on(s@, c)[before.len() as int]);
                    }
                }
            }
            return r;
        }
        proof {
            let next = s@.subrange(q + 1, n as int);
            assert(rest.subrange(q - p + 1, rest.len() as int) =~= next);
            assert(split_on(rest, c) =~= seq![s@.subrange(p as int, q as int)] + split_on(next, c));
            assert(split_on(rest, c)[0] == split_on(s@, c)[before.len() as int]);
            assert forall|i: int| 0 <= i < split_on(next, c).len() implies #[trigger] split_on(next, c)[i]
                == split_on(s@, c)[r@.len() + i] by {
                assert(split_on(next, c)[i] == split_on(rest, c)[i + 1]);
                assert(split_on(rest, c)[i + 1] == split_on(s@, c)[before.len() + i + 1]);
            }
        }
        p = q + 1;
    }
}

/// Joining pieces free of `c` with `c` and splitting again gives them back.
pub proof fn lemma_split_join(a: Seq<char>, rest: Seq<char>, c: char)
    requires
        lacks(a, c),
    ensures
        split_on(a + seq![c] + rest, c) == seq![a] + split_on(rest, c),
{
    let s = a + seq![c] + rest;
    lemma_index_of(s, c, 0, a.len() as int);
    assert(s.subrange(0, s.len() as int) =~= s);
    assert(s.subrange(0, a.len() as int) =~= a);
    assert(s.subrange(a.len() as int + 1, s.len() as int) =~= rest);
}

/// A piece free of `c` splits into itself.
pub proof fn lemma_split_single(a: Seq<char>, c: char)
    requires
        lacks(a, c),
    ensures
        split_on(a, c) == seq![a],
{
    lemma_index_of(a, c, 0, a.len() as int);
    assert(a.subrange(0, a.len() as int) =~= a);
}

/// Text without white space is its own trim.
pub proof fn lemma_trim_spaceless(s: Seq<char>)
    requires
        forall|i: int| 0 <= i < s.len() ==> !is_space(s[i]),
    ensures
        trimmed(s) == s,
{
}

/// Whether `a` and `b` hold the same characters.
pub fn same_chars(a: &[char], b: &[char]) -> (r: bool)
    ensures
        r == (a@ == b@),
{
    if a.len() != b.len() {
        return false;
    }
    let mut i: usize = 0;
    while i < a.len()
        invariant
            a@.len() == b@.len(),
            i <= a@.len(),
            forall|j: int| 0 <= j < i ==> a@[j] == b@[j],
        decreases a.len() - i,
    {
        if a[i] != b[i] {
            return false;
        }
        i = i + 1;
    }
    assert(a@ =~= b@);
    true
}

/// A line without the carriage return that may end it.
pub open spec fn without_cr(l: Seq<char>) -> Seq<char> {
    if l.len() > 0 && l.last() == '\r' {
        l.drop_last()
    } else {
        l
    }
}

/// The lines of `s` as `str::lines` gives them: split at line feeds, a
/// carriage return before one dropped, and no empty line after a final line
/// feed.
pub open spec fn lines_of(s: Seq<char>) -> Seq<Seq<char>>
    decreases s.len(),
{
    if s.len() == 0 {
        seq![]
    } else {
        let e = index_of(s, '\n');
        if 0 <= e < s.len() {
            seq![without_cr(s.subrange(0, e))] + lines_of(s.subrange(e + 1, s.len() as int))
        } else {
            seq![without_cr(s)]
        }
    }
}

/// Splits `s` into lines as `str::lines` does.
pub fn split_lines(s: &[char]) -> (r: Vec<Vec<char>>)
    ensures
        r@.len() == lines_of(s@).len(),
        forall|i: int| 0 <= i < r@.len() ==> #[trigger] r@[i]@ == lines_of(s@)[i],
{
    let n = s.len();
    let mut r: Vec<Vec<char>> = Vec::new();
    let mut p: usize = 0;
    assert(s@.subrange(0, n as int) =~= s@);
    while p < n
        invariant
            n == s@.len(),
            p <= n,
            r@.len() + lines_of(s@.subrange(p as int, n as int)).len() == lines_of(s@).len(),
            forall|i: int| 0 <= i < r@.len() ==> #[trigger] r@[i]@ == lines_of(s@)[i],
            forall|i: int|
                0 <= i < lines_of(s@.subrange(p as int, n as int)).len() ==> #[trigger] lines_of(
                    s@.subrange(p as int, n as int),
                )[i] == lines_of(s@)[r@.len() + i],
        decreases n - p,
    {
        let ghost rest = s@.subrange(p as int, n as int);
        let mut q: usize = p;
        while q < n && s[q] != '\n'
            invariant
                p <= q <= n == s@.len(),
                forall|j: int| p <= j < q ==> s@[j] != '\n',
            decreases n - q,
        {
            q = q + 1;
        }
        proof {
            lemma_index_of(s@, '\n', p as int, q as int);
        }
        let mut e = q;
        if e > p && s[e - 1] == '\r' {
            e = e - 1;
        }
        let line = slice_of(s, p, e);
        let ghost next: Seq<char> = if q < n {
            s@.subrange(q + 1, n as int)
        } else {
            seq![]
        };
        proof {
            assert(rest.subrange(0, q - p) =~= s@.subrange(p as int, q as int));
            assert(line@ == without_cr(rest.subrange(0, q - p)));
            if q < n {
                assert(rest.subrange(q - p + 1, rest.len() as int) =~= next);
                assert(lines_of(rest).drop_first() =~= lines_of(next));
            } else {
                assert(rest.subrange(0, q - p) =~= rest);
                assert(lines_of(rest).drop_first() =~= lines_of(next));
            }
            assert(lines_of(rest)[0] == line@);
            assert(lines_of(rest) =~= seq![line@] + lines_of(next));
        }
        let ghost before = r@;
        r.push(line);
        proof {
            assert(lines_of(rest)[0] == lines_of(s@)[before.len() as int]);
            assert forall|i: int| 0 <= i < lines_of(next).len() implies #[trigger] lines_of(next)[i]
                == lines_of(s@)[r@.len() + i] by {
                assert(lines_of(next)[i] == lines_of(rest)[i + 1]);
                assert(lines_of(rest)[i + 1] == lines_of(s@)[before.len() + i + 1]);
            }
            if q < n {
                assert(s@.subrange(q + 1, n as int) == next);
            } else {
                assert(s@.subrange(n as int, n as int) =~= next);
            }
        }
        p = if q < n { q + 1 } else { n };
    }
    assert(s@.subrange(p as int, n as int) =~= Seq::<char>::empty());
    r
}

/// `trim_end` keeps a prefix and drops only white space.
pub proof fn lemma_trim_end_shape(x: Seq<char>) -> (k: int)
    ensures
        0 <= k <= x.len(),
        trim_end(x) == x.subrange(0, k),
        forall|j: int| k <= j < x.len() ==> is_space(#[trigger] x[j]),
    decreases x.len(),
{
    if x.len() > 0 && is_space(x.last()) {
        let k = lemma_trim_end_shape(x.drop_last());
        assert(x.drop_last().subrange(0, k) =~= x.subrange(0, k));
        assert forall|j: int| k <= j < x.len() implies is_space(#[trigger] x[j]) by {
            if j < x.len() - 1 {
                assert(x.drop_last()[j] == x[j]);
            }
        }
        k
    } else {
        assert(x.subrange(0, x.len() as int) =~= x);
        x.len() as int
    }
}

/// Where `s` holds a `c`, `index_of` finds one.
pub proof fn lemma_index_of_found(s: Seq<char>, c: char)
    requires
        !lacks(s, c),
    ensures
        0 <= index_of(s, c) < s.len(),
    decreases s.len(),
{
    if s.len() > 0 && s[0] != c {
        assert(!lacks(s.drop_first(), c)) by {
            let j = choose|j: int| 0 <= j < s.len() && s[j] == c;
            assert(s.drop_first()[j - 1] == c);
        }
        lemma_index_of_found(s.drop_first(), c);
    }
}

/// Text holding a `c` splits into at least two pieces.
pub proof fn lemma_split_several(s: Seq<char>, c: char)
    requires
        !lacks(s, c),
    ensures
        split_on(s, c).len() >= 2,
{
    lemma_index_of_found(s, c);
    let i = index_of(s, c);
    let rest = s.subrange(i + 1, s.len() as int);
    assert(split_on(rest, c).len() >= 1);
}

/// How many times `c` occurs in `s`.
pub open spec fn count_of(s: Seq<char>, c: char) -> nat
    decreases s.len(),
{
    if s.len() == 0 {
        0
    } else {
        (if s[0] == c {
            1nat
        } else {
            0nat
        }) + count_of(s.drop_first(), c)
    }
}

pub proof fn lemma_count_concat(a: Seq<char>, b: Seq<char>, c: char)
    ensures
        count_of(a + b, c) == count_of(a, c) + count_of(b, c),
    decreases a.len(),
{
    if a.len() > 0 {
        assert((a + b).drop_first() =~= a.drop_first() + b);
        lemma_count_concat(a.drop_first(), b, c);
    } else {
        assert(a + b =~= b);
    }
}

proof fn lemma_count_lacks(a: Seq<char>, c: char)
    requires
        lacks(a, c),
    ensures
        count_of(a, c) == 0,
    decreases a.len(),
{
    if a.len() > 0 {
        lemma_count_lacks(a.drop_first(), c);
    }
}

/// `s` splits at `c` into one piece more than it holds `c`.
pub proof fn lemma_split_count(s: Seq<char>, c: char)
    ensures
        split_on(s, c).len() == 1 + count_of(s, c),
    decreases s.len(),
{
    let i = index_of(s, c);
    if lacks(s, c) {
        lemma_split_single(s, c);
        lemma_count_lacks(s, c);
    } else {
        lemma_index_of_found(s, c);
        let rest = s.subrange(i + 1, s.len() as int);
        assert(s.subrange(0, s.len() as int) =~= s);
        lemma_index_of_prefix(s, c);
        lemma_split_count(rest, c);
        assert(s =~= s.subrange(0, i) + (seq![c] + rest));
        lemma_count_concat(s.subrange(0, i), seq![c] + rest, c);
        lemma_count_concat(seq![c], rest, c);
        lemma_count_lacks(s.subrange(0, i), c);
        assert(count_of(seq![c], c) == 1) by {
            let one = seq![c];
            assert(one.drop_first() =~= Seq::<char>::empty());
            assert(count_of(Seq::<char>::empty(), c) == 0);
            assert(one[0] == c);
            assert(count_of(one, c) == 1nat + count_of(one.drop_first(), c));
        }
    }
}

proof fn lemma_index_of_prefix(s: Seq<char>, c: char)
    ensures
        0 <= index_of(s, c) <= s.len(),
        lacks(s.subrange(0, index_of(s, c)), c),
        index_of(s, c) < s.len() ==> s[index_of(s, c)] == c,
    decreases s.len(),
{
    if s.len() > 0 && s[0] != c {
        lemma_index_of_prefix(s.drop_first(), c);
        let i = index_of(s, c);
        assert forall|j: int| 0 <= j < i implies s.subrange(0, i)[j] != c by {
            if j > 0 {
                assert(s.subrange(0, i)[j] == s.drop_first().subrange(0, i - 1)[j - 1]);
            }
        }
    }
}

/// `trim_start` drops only white space from the front.
pub proof fn lemma_trim_start_shape(x: Seq<char>) -> (k: int)
    ensures
        0 <= k <= x.len(),
        trim_start(x) == x.subrange(k, x.len() as int),
        forall|j: int| 0 <= j < k ==> is_space(#[trigger] x[j]),
    decreases x.len(),
{
    if x.len() > 0 && is_space(x[0]) {
        let k = lemma_trim_start_shape(x.drop_first());
        assert(x.drop_first().subrange(k, x.len() - 1) =~= x.subrange(k + 1, x.len() as int));
        assert forall|j: int| 0 <= j < k + 1 implies is_space(#[trigger] x[j]) by {
            if j > 0 {
                assert(x.drop_first()[j - 1] == x[j]);
            }
        }
        k + 1
    } else {
        assert(x.subrange(0, x.len() as int) =~= x);
        0
    }
}

proof fn lemma_count_spaces(a: Seq<char>, c: char)
    requires
        !is_space(c),
        forall|j: int| 0 <= j < a.len() ==> is_space(#[trigger] a[j]),
    ensures
        count_of(a, c) == 0,
{
    assert(lacks(a, c)) by {
        assert forall|j: int| 0 <= j < a.len() implies a[j] != c by {
            assert(is_space(a[j]));
        }
    }
    lemma_count_lacks(a, c);
}

/// Trimming keeps every character that is not white space, so it keeps the
/// number of pieces a split at such a character gives.
pub proof fn lemma_trim_keeps_pieces(s: Seq<char>, c: char)
    requires
        !is_space(c),
    ensures
        split_on(trimmed(s), c).len() == split_on(s, c).len(),
{
    let a = lemma_trim_start_shape(s);
    let u = s.subrange(a, s.len() as int);
    let b = lemma_trim_end_shape(u);
    assert(s =~= s.subrange(0, a) + (u.subrange(0, b) + u.subrange(b, u.len() as int)));
    lemma_count_concat(s.subrange(0, a), u.subrange(0, b) + u.subrange(b, u.len() as int), c);
    lemma_count_concat(u.subrange(0, b), u.subrange(b, u.len() as int), c);
    assert forall|j: int| 0 <= j < a implies is_space(#[trigger] s.subrange(0, a)[j]) by {
        assert(s.subrange(0, a)[j] == s[j]);
    }
    lemma_count_spaces(s.subrange(0, a), c);
    assert forall|j: int| 0 <= j < u.len() - b implies is_space(#[trigger] u.subrange(b, u.len() as int)[j]) by {
        assert(u.subrange(b, u.len() as int)[j] == u[b + j]);
    }
    lemma_count_spaces(u.subrange(b, u.len() as int), c);
    lemma_split_count(s, c);
    lemma_split_count(trimmed(s), c);
}

/// Two texts without `c` make a text without `c`.
pub proof fn lemma_lacks_concat(a: Seq<char>, b: Seq<char>, c: char)
    requires
        lacks(a, c),
        lacks(b, c),
    ensures
        lacks(a + b, c),
{
    assert forall|i: int| 0 <= i < (a + b).len() implies (a + b)[i] != c by {
        if i >= a.len() {
            assert((a + b)[i] == b[i - a.len()]);
        }
    }
}

/// Text that holds `c` holds it at least once by count.
pub proof fn lemma_count_found(s: Seq<char>, c: char)
    requires
        !lacks(s, c),
    ensures
        count_of(s, c) >= 1,
{
    lemma_split_several(s, c);
    lemma_split_count(s, c);
}

/// A single `c` counts once.
pub proof fn lemma_count_single(c: char)
    ensures
        count_of(seq![c], c) == 1,
{
    let one = seq![c];
    assert(one.drop_first() =~= Seq::<char>::empty());
    assert(count_of(Seq::<char>::empty(), c) == 0);
    assert(count_of(one, c) == 1nat + count_of(one.drop_first(), c));
}

} // verus!
