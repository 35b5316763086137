//! Sanitising of metric, dimension and measurement names into SQL identifiers.
use vstd::prelude::*;

verus! {

/// ASCII lowercasing of one char.
pub open spec fn lower_ascii(c: char) -> char {
    if 'A' <= c && c <= 'Z' {
        ((c as u32) + 32) as char
    } else {
        c
    }
}

pub open spec fn is_digit(c: char) -> bool {
    '0' <= c && c <= '9'
}

/// A char that may stand in an identifier: `[a-z0-9_]`.
pub open spec fn is_ident_char(c: char) -> bool {
    ('a' <= c && c <= 'z') || is_digit(c) || c == '_'
}

/// Lowercases `s` and replaces each maximal run of chars outside `[a-z0-9_]` by one `_`.
pub open spec fn collapse(s: Seq<char>) -> Seq<char>
    decreases s.len(),
{
    if s.len() == 0 {
        Seq::empty()
    } else {
        let p = collapse(s.drop_last());
        let c = lower_ascii(s.last());
        if is_ident_char(c) {
            p.push(c)
        } else if s.len() >= 2 && !is_ident_char(lower_ascii(s[s.len() - 2])) {
            p
        } else {
            p.push('_')
        }
    }
}

/// `s` without its leading decimal digits.
pub open spec fn strip_digits(s: Seq<char>) -> Seq<char>
    decreases s.len(),
{
    if s.len() > 0 && is_digit(s[0]) {
        strip_digits(s.drop_first())
    } else {
        s
    }
}

/// The identifier that a name maps to.
pub open spec fn clean_id_of(s: Seq<char>) -> Seq<char> {
    let t = strip_digits(collapse(s));
    if t.len() == 0 {
        seq!['_']
    } else {
        t
    }
}

/// `s` matches `[a-z_][a-z0-9_]*`.
pub open spec fn is_clean(s: Seq<char>) -> bool {
    &&& s.len() > 0
    &&& !is_digit(s[0])
    &&& forall|i: int| 0 <= i < s.len() ==> is_ident_char(#[trigger] s[i])
}

/// ASCII lowercasing of one char.
fn to_ascii_lower(c: char) -> (r: char)
    ensures
        r == lower_ascii(c),
{
    if 'A' <= c && c <= 'Z' {
        let b: u8 = c as u8;
        assert(b as u32 == c as u32);
        (b + 32) as char
    } else {
        c
    }
}

/// Relies on String::push: appends one char at the end.
#[verifier::external_body]
pub(crate) fn push_char(s: &mut String, c: char)
    ensures
        final(s)@ == old(s)@.push(c),
{
    s.push(c)
}

proof fn lemma_collapse_ident(s: Seq<char>)
    ensures
        forall|i: int| 0 <= i < collapse(s).len() ==> is_ident_char(#[trigger] collapse(s)[i]),
    decreases s.len(),
{
    if s.len() > 0 {
        lemma_collapse_ident(s.drop_last());
        let p = collapse(s.drop_last());
        assert forall|i: int| 0 <= i < collapse(s).len() implies is_ident_char(
            #[trigger] collapse(s)[i],
        ) by {
            if i < p.len() {
                assert(collapse(s)[i] == p[i]);
            }
        }
    }
}

proof fn lemma_collapse_of_clean(s: Seq<char>)
    requires
        forall|i: int| 0 <= i < s.len() ==> is_ident_char(#[trigger] s[i]),
    ensures
        collapse(s) == s,
    decreases s.len(),
{
    if s.len() > 0 {
        lemma_collapse_of_clean(s.drop_last());
        assert(is_ident_char(s[s.len() - 1]));
        assert(s.drop_last().push(s.last()) =~= s);
    }
}

proof fn lemma_strip_digits(s: Seq<char>)
    requires
        forall|i: int| 0 <= i < s.len() ==> is_ident_char(#[trigger] s[i]),
    ensures
        forall|i: int|
            0 <= i < strip_digits(s).len() ==> is_ident_char(#[trigger] strip_digits(s)[i]),
        strip_digits(s).len() > 0 ==> !is_digit(strip_digits(s)[0]),
    decreases s.len(),
{
    if s.len() > 0 && is_digit(s[0]) {
        assert forall|i: int| 0 <= i < s.drop_first().len() implies is_ident_char(
            #[trigger] s.drop_first()[i],
        ) by {
            assert(s.drop_first()[i] == s[i + 1]);
        }
        lemma_strip_digits(s.drop_first());
    }
}

proof fn lemma_strip_prefix(s: Seq<char>, k: int)
    requires
        0 <= k <= s.len(),
        forall|j: int| 0 <= j < k ==> is_digit(#[trigger] s[j]),
        k < s.len() ==> !is_digit(s[k]),
    ensures
        strip_digits(s) == s.subrange(k, s.len() as int),
    decreases k,
{
    if k == 0 {
        if s.len() > 0 {
            assert(!is_digit(s[0]));
        }
        assert(s.subrange(0, s.len() as int) =~= s);
    } else {
        assert(is_digit(s[0]));
        let t = s.drop_first();
        assert forall|j: int| 0 <= j < k - 1 implies is_digit(#[trigger] t[j]) by {
            assert(t[j] == s[j + 1]);
        }
        if k - 1 < t.len() {
            assert(t[k - 1] == s[k]);
        }
        lemma_strip_prefix(t, k - 1);
        assert(t.subrange(k - 1, t.len() as int) =~= s.subrange(k, s.len() as int));
    }
}

/// Every output of `clean_id` is a well-formed identifier, and cleaning it again leaves it as it is.
pub proof fn lemma_clean_id_idempotent(x: Seq<char>)
    ensures
        is_clean(clean_id_of(x)),
        clean_id_of(clean_id_of(x)) == clean_id_of(x),
{
    lemma_collapse_ident(x);
    lemma_strip_digits(collapse(x));
    let y = clean_id_of(x);
    assert(is_clean(y));
    lemma_collapse_of_clean(y);
    assert(strip_digits(y) == y);
}

/// Sanitises a name into an SQL identifier: lowercases, replaces each run of chars outside
/// `[a-z0-9_]` by one `_`, and strips leading digits; an empty result becomes `_`.
pub fn clean_id(s: &str) -> (r: String)
    ensures
        r@ == clean_id_of(s@),
        is_clean(r@),
{
    let n = s.unicode_len();
    let mut folded = String::new();
    let mut prev_ident = true;
    let mut i: usize = 0;
    while i < n
        invariant
            i <= n,
            n == s@.len(),
            folded@ == collapse(s@.subrange(0, i as int)),
            i > 0 ==> prev_ident == is_ident_char(lower_ascii(s@[i - 1])),
        decreases n - i,
    {
        let c = to_ascii_lower(s.get_char(i));
        let ghost pre = s@.subrange(0, i as int + 1);
        assert(pre.drop_last() =~= s@.subrange(0, i as int));
        if ('a' <= c && c <= 'z') || ('0' <= c && c <= '9') || c == '_' {
            push_char(&mut folded, c);
            prev_ident = true;
        } else {
            if i == 0 || prev_ident {
                push_char(&mut folded, '_');
            }
            prev_ident = false;
        }
        i = i + 1;
    }
    assert(s@.subrange(0, n as int) =~= s@);
    let ghost t = folded@;
    proof {
        lemma_collapse_ident(s@);
    }
    let m = folded.unicode_len();
    let mut k: usize = 0;
    let mut in_digits = true;
    while in_digits && k < m
        invariant
            k <= m,
            m == t.len(),
            folded@ == t,
            forall|j: int| 0 <= j < k ==> is_digit(#[trigger] t[j]),
            !in_digits ==> k < m && !is_digit(t[k as int]),
        decreases m - k + if in_digits { 1int } else { 0int },
    {
        let c = folded.get_char(k);
        if '0' <= c && c <= '9' {
            k = k + 1;
        } else {
            in_digits = false;
        }
    }
    proof {
        lemma_strip_prefix(t, k as int);
        lemma_clean_id_idempotent(s@);
    }
    let mut out = String::new();
    let mut j: usize = k;
    while j < m
        invariant
            k <= j <= m,
            m == t.len(),
            folded@ == t,
            out@ == t.subrange(k as int, j as int),
        decreases m - j,
    {
        let c = folded.get_char(j);
        push_char(&mut out, c);
        assert(t.subrange(k as int, j as int + 1) =~= t.subrange(k as int, j as int).push(c));
        j = j + 1;
    }
    if out.unicode_len() == 0 {
        push_char(&mut out, '_');
        assert(out@ =~= seq!['_']);
    }
    out
}

} // verus!
