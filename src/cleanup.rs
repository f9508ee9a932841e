//! Repair of text taken out of responses: `\uXXXX` escapes become the
//! characters they name, then a fixed chain of substitutions removes quote
//! characters and turns escaped-newline artefacts into real newlines.
use vstd::prelude::*;
use crate::text::{replaced, replace_all};

verus! {

/// The value of a hexadecimal digit, or -1 for any other character.
pub open spec fn hex_value(c: char) -> int {
    let n = c as u32;
    if 48 <= n <= 57 {
        n - 48
    } else if 97 <= n <= 102 {
        n - 87
    } else if 65 <= n <= 70 {
        n - 55
    } else {
        -1
    }
}

/// Whether `n` is a Unicode scalar value, i.e. the code of some `char`.
pub open spec fn is_scalar(n: int) -> bool {
    (0 <= n < 0xD800) || (0xE000 <= n <= 0x10FFFF)
}

/// The code point of `c`.
pub open spec fn code_of(c: char) -> int {
    c as u32 as int
}

/// The character whose code is `n`.
pub open spec fn char_with_code(n: int) -> char {
    choose|c: char| #[trigger] code_of(c) == n
}

/// The code written by four hexadecimal digits at `s[i..i + 4]`.
pub open spec fn hex4(s: Seq<char>, i: int) -> int {
    hex_value(s[i]) * 4096 + hex_value(s[i + 1]) * 256 + hex_value(s[i + 2]) * 16 + hex_value(
        s[i + 3],
    )
}

/// `s` starts with a backslash, `u` and four hexadecimal digits naming a
/// scalar value. An escape that names a surrogate is no character and is
/// left as it stands.
pub open spec fn escape_first(s: Seq<char>) -> bool {
    &&& s.len() >= 6
    &&& s[0] == '\\'
    &&& s[1] == 'u'
    &&& hex_value(s[2]) >= 0 && hex_value(s[3]) >= 0 && hex_value(s[4]) >= 0 && hex_value(s[5]) >= 0
    &&& is_scalar(hex4(s, 2))
}

/// `s` with each `\uXXXX` escape replaced by its character, escapes taken
/// left to right.
pub open spec fn unicode_decoded(s: Seq<char>) -> Seq<char>
    decreases s.len(),
{
    if s.len() == 0 {
        s
    } else if escape_first(s) {
        seq![char_with_code(hex4(s, 2))] + unicode_decoded(s.subrange(6, s.len() as int))
    } else {
        seq![s[0]] + unicode_decoded(s.drop_first())
    }
}

/// Relies on `char::from_u32`: `Some` exactly for scalar values, holding the
/// character of that code.
#[verifier::external_body]
fn char_from_code(n: u32) -> (r: Option<char>)
    ensures
        is_scalar(n as int) <==> r is Some,
        r is Some ==> code_of(r->Some_0) == n,
{
    char::from_u32(n)
}

proof fn lemma_code_injective(a: char, b: char)
    requires
        code_of(a) == code_of(b),
    ensures
        a == b,
{
}

fn hex_digit(c: char) -> (r: i32)
    ensures
        r == hex_value(c),
{
    let n = c as u32;
    if 48 <= n && n <= 57 {
        (n - 48) as i32
    } else if 97 <= n && n <= 102 {
        (n - 87) as i32
    } else if 65 <= n && n <= 70 {
        (n - 55) as i32
    } else {
        -1
    }
}

/// The character of the escape at `s[i..]`, if one stands there.
fn escape_at(s: &[char], i: usize) -> (r: Option<char>)
    requires
        i <= s@.len(),
    ensures
        escape_first(s@.subrange(i as int, s@.len() as int)) <==> r is Some,
        r is Some ==> r->Some_0 == char_with_code(hex4(s@, i + 2)),
{
    let ghost t = s@.subrange(i as int, s@.len() as int);
    if s.len() - i < 6 || s[i] != '\\' || s[i + 1] != 'u' {
        return None;
    }
    let a = hex_digit(s[i + 2]);
    let b = hex_digit(s[i + 3]);
    let c = hex_digit(s[i + 4]);
    let d = hex_digit(s[i + 5]);
    if a < 0 || b < 0 || c < 0 || d < 0 {
        return None;
    }
    let code: u32 = (a as u32) * 4096 + (b as u32) * 256 + (c as u32) * 16 + (d as u32);
    assert(hex4(t, 2) == hex4(s@, i + 2));
    match char_from_code(code) {
        Some(ch) => {
            assert(code_of(ch) == hex4(s@, i + 2));
            proof {
                lemma_code_injective(ch, char_with_code(hex4(s@, i + 2)));
            }
            Some(ch)
        },
        None => None,
    }
}

/// Decodes every `\uXXXX` escape of `s` into its character.
pub fn decode_unicode_escapes(s: &[char]) -> (r: Vec<char>)
    ensures
        r@ == unicode_decoded(s@),
{
    let mut out: Vec<char> = Vec::new();
    let mut i: usize = 0;
    assert(s@.subrange(0, s@.len() as int) =~= s@);
    assert(out@ + unicode_decoded(s@) =~= unicode_decoded(s@));
    while i < s.len()
        invariant
            i <= s@.len(),
            out@ + unicode_decoded(s@.subrange(i as int, s@.len() as int)) == unicode_decoded(s@),
        decreases s.len() - i,
    {
        let ghost t = s@.subrange(i as int, s@.len() as int);
        match escape_at(s, i) {
            Some(ch) => {
                assert(t.subrange(6, t.len() as int) =~= s@.subrange(i + 6, s@.len() as int));
                assert(hex4(t, 2) == hex4(s@, i + 2));
                out.push(ch);
                assert(out@ + unicode_decoded(s@.subrange(i + 6, s@.len() as int)) =~= (out@.drop_last()
                    + unicode_decoded(t)));
                i = i + 6;
            },
            None => {
                assert(t.drop_first() =~= s@.subrange(i + 1, s@.len() as int));
                out.push(s[i]);
                assert(out@ + unicode_decoded(s@.subrange(i + 1, s@.len() as int)) =~= (out@.drop_last()
                    + unicode_decoded(t)));
                i = i + 1;
            },
        }
    }
    assert(s@.subrange(i as int, s@.len() as int) =~= Seq::<char>::empty());
    assert(out@ + Seq::<char>::empty() =~= out@);
    out
}

/// The substitutions applied to a whole reply, in order: quote characters
/// go, escaped-newline variants become one newline, and doubled backslashes
/// go.
pub open spec fn reply_substituted(s: Seq<char>) -> Seq<char> {
    let s1 = replaced(s, seq!['"'], seq![]);
    let s2 = replaced(s1, seq!['\\', 'n', '\\', 'n'], seq!['\n']);
    let s3 = replaced(s2, seq!['\\', 'n', 'n', '\\', 'n', 'n'], seq!['\n']);
    let s4 = replaced(s3, seq!['\\', '\\', 'n', 'n'], seq!['\n']);
    let s5 = replaced(s4, seq!['\\', 'n'], seq!['\n']);
    let s6 = replaced(s5, seq!['\\', 'n', 'n'], seq!['\n']);
    replaced(s6, seq!['\\', '\\'], seq![])
}

/// A reply as the user sees it: escapes decoded, then the reply
/// substitutions.
pub open spec fn reply_cleaned(s: Seq<char>) -> Seq<char> {
    reply_substituted(unicode_decoded(s))
}

/// The substitutions applied to one streamed fragment, in order; the last
/// removes every remaining backslash.
pub open spec fn fragment_substituted(s: Seq<char>) -> Seq<char> {
    let s1 = replaced(s, seq!['"'], seq![]);
    let s2 = replaced(s1, seq!['\\', 'n', '\\', 'n'], seq!['\n']);
    let s3 = replaced(s2, seq!['\\', 'n', 'n'], seq!['\n']);
    let s4 = replaced(s3, seq!['\\', '\\', 'n'], seq!['\n']);
    let s5 = replaced(s4, seq!['\\', '\\', 'n', 'n'], seq!['\n']);
    replaced(s5, seq!['\\'], seq![])
}

/// A streamed fragment as the user sees it.
pub open spec fn fragment_cleaned(s: Seq<char>) -> Seq<char> {
    fragment_substituted(unicode_decoded(s))
}

/// Cleans a whole reply (synchronous, asynchronous and image answers).
pub fn clean_reply(s: &[char]) -> (r: Vec<char>)
    ensures
        r@ == reply_cleaned(s@),
{
    let d = decode_unicode_escapes(s);
    let nl = vec!['\n'];
    assert(nl@ =~= seq!['\n']);
    let none: Vec<char> = Vec::new();
    let quote_mark = vec!['"'];
    assert(quote_mark@ =~= seq!['"']);
    let s1 = replace_all(&d, &quote_mark, &none);
    let escaped_blank = vec!['\\', 'n', '\\', 'n'];
    assert(escaped_blank@ =~= seq!['\\', 'n', '\\', 'n']);
    let s2 = replace_all(&s1, &escaped_blank, &nl);
    let doubled_nn = vec!['\\', 'n', 'n', '\\', 'n', 'n'];
    assert(doubled_nn@ =~= seq!['\\', 'n', 'n', '\\', 'n', 'n']);
    let s3 = replace_all(&s2, &doubled_nn, &nl);
    let wide_nn = vec!['\\', '\\', 'n', 'n'];
    assert(wide_nn@ =~= seq!['\\', '\\', 'n', 'n']);
    let s4 = replace_all(&s3, &wide_nn, &nl);
    let escaped_nl = vec!['\\', 'n'];
    assert(escaped_nl@ =~= seq!['\\', 'n']);
    let s5 = replace_all(&s4, &escaped_nl, &nl);
    let escaped_nn = vec!['\\', 'n', 'n'];
    assert(escaped_nn@ =~= seq!['\\', 'n', 'n']);
    let s6 = replace_all(&s5, &escaped_nn, &nl);
    let double_backslash = vec!['\\', '\\'];
    assert(double_backslash@ =~= seq!['\\', '\\']);
    let r = replace_all(&s6, &double_backslash, &none);
    assert(none@ =~= seq![]);
    r
}

/// Cleans one streamed fragment.
pub fn clean_fragment(s: &[char]) -> (r: Vec<char>)
    ensures
        r@ == fragment_cleaned(s@),
{
    let d = decode_unicode_escapes(s);
    let nl = vec!['\n'];
    assert(nl@ =~= seq!['\n']);
    let none: Vec<char> = Vec::new();
    let quote_mark = vec!['"'];
    assert(quote_mark@ =~= seq!['"']);
    let s1 = replace_all(&d, &quote_mark, &none);
    let escaped_blank = vec!['\\', 'n', '\\', 'n'];
    assert(escaped_blank@ =~= seq!['\\', 'n', '\\', 'n']);
    let s2 = replace_all(&s1, &escaped_blank, &nl);
    let escaped_nn = vec!['\\', 'n', 'n'];
    assert(escaped_nn@ =~= seq!['\\', 'n', 'n']);
    let s3 = replace_all(&s2, &escaped_nn, &nl);
    let wide_nl = vec!['\\', '\\', 'n'];
    assert(wide_nl@ =~= seq!['\\', '\\', 'n']);
    let s4 = replace_all(&s3, &wide_nl, &nl);
    let wide_nn = vec!['\\', '\\', 'n', 'n'];
    assert(wide_nn@ =~= seq!['\\', '\\', 'n', 'n']);
    let s5 = replace_all(&s4, &wide_nn, &nl);
    let backslash = vec!['\\'];
    assert(backslash@ =~= seq!['\\']);
    let r = replace_all(&s5, &backslash, &none);
    assert(none@ =~= seq![]);
    r
}

/// `s` holds neither a backslash nor a quote character.
pub open spec fn escape_free(s: Seq<char>) -> bool {
    forall|i: int| 0 <= i < s.len() ==> s[i] != '\\' && s[i] != '"'
}

proof fn lemma_replaced_absent(s: Seq<char>, pat: Seq<char>, rep: Seq<char>)
    requires
        pat.len() > 0,
        forall|i: int| 0 <= i < s.len() ==> s[i] != pat[0],
    ensures
        replaced(s, pat, rep) == s,
    decreases s.len(),
{
    if s.len() >= pat.len() {
        assert(s.subrange(0, pat.len() as int)[0] != pat[0]);
        lemma_replaced_absent(s.subrange(1, s.len() as int), pat, rep);
        assert(s =~= seq![s[0]] + s.subrange(1, s.len() as int));
    }
}

proof fn lemma_decoded_absent(s: Seq<char>)
    requires
        forall|i: int| 0 <= i < s.len() ==> s[i] != '\\',
    ensures
        unicode_decoded(s) == s,
    decreases s.len(),
{
    if s.len() > 0 {
        lemma_decoded_absent(s.drop_first());
        assert(s =~= seq![s[0]] + s.drop_first());
    }
}

/// Text without backslashes or quote characters comes out of either cleanup
/// pass unchanged.
pub proof fn lemma_clean_text_unchanged(s: Seq<char>)
    requires
        escape_free(s),
    ensures
        reply_cleaned(s) == s,
        fragment_cleaned(s) == s,
{
    lemma_decoded_absent(s);
    lemma_replaced_absent(s, seq!['"'], seq![]);
    lemma_replaced_absent(s, seq!['\\', 'n', '\\', 'n'], seq!['\n']);
    lemma_replaced_absent(s, seq!['\\', 'n', 'n', '\\', 'n', 'n'], seq!['\n']);
    lemma_replaced_absent(s, seq!['\\', '\\', 'n', 'n'], seq!['\n']);
    lemma_replaced_absent(s, seq!['\\', 'n'], seq!['\n']);
    lemma_replaced_absent(s, seq!['\\', 'n', 'n'], seq!['\n']);
    lemma_replaced_absent(s, seq!['\\', '\\'], seq![]);
    lemma_replaced_absent(s, seq!['\\', '\\', 'n'], seq!['\n']);
    lemma_replaced_absent(s, seq!['\\'], seq![]);
}

} // verus!
