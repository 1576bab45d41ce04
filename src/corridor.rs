//! Corridor keys: reading an asset pair and normalizing it.
use vstd::prelude::*;
use vstd::string::*;
use crate::text::{chars_of, append_range, push_char};
use crate::error::ApiError;

verus! {

/// `s` with every space removed.
pub open spec fn strip_spaces(s: Seq<char>) -> Seq<char>
    decreases s.len(),
{
    if s.len() == 0 {
        s
    } else if s.last() == ' ' {
        strip_spaces(s.drop_last())
    } else {
        strip_spaces(s.drop_last()).push(s.last())
    }
}

/// An arrow `->` starts at position `i` of `s`.
pub open spec fn arrow_at(s: Seq<char>, i: int) -> bool {
    0 <= i && i + 1 < s.len() && s[i] == '-' && s[i + 1] == '>'
}

/// `i` is the position of the one and only arrow in `s`.
pub open spec fn sole_arrow(s: Seq<char>, i: int) -> bool {
    arrow_at(s, i) && forall|j: int| arrow_at(s, j) ==> j == i
}

/// `i` is the position of the one and only `:` in `s`.
pub open spec fn sole_colon(s: Seq<char>, i: int) -> bool {
    0 <= i < s.len() && s[i] == ':' && forall|j: int| 0 <= j < s.len() && s[j] == ':' ==> j == i
}

/// `a` and `b` agree on their first `k` characters.
pub open spec fn common_prefix(a: Seq<char>, b: Seq<char>, k: int) -> bool {
    0 <= k <= a.len() && k <= b.len() && forall|j: int| 0 <= j < k ==> a[j] == b[j]
}

/// `a` comes strictly before `b` in lexicographic order of code points.
pub open spec fn lex_lt(a: Seq<char>, b: Seq<char>) -> bool {
    exists|k: int|
        common_prefix(a, b, k) && ((k == a.len() && k < b.len()) || (k < a.len() && k < b.len()
            && a[k] < b[k]))
}

/// Asset `(ac, ai)` orders strictly before asset `(bc, bi)`: by code, then by issuer.
pub open spec fn asset_lt(ac: Seq<char>, ai: Seq<char>, bc: Seq<char>, bi: Seq<char>) -> bool {
    lex_lt(ac, bc) || (ac == bc && lex_lt(ai, bi))
}

/// An asset written as `CODE:ISSUER`.
pub open spec fn asset_text(code: Seq<char>, issuer: Seq<char>) -> Seq<char> {
    code + seq![':'] + issuer
}

/// Normalized corridor key: the two assets as `CODE:ISSUER`, the smaller first,
/// joined by `->`; the same for both directions of a pair.
pub open spec fn corridor_key_spec(ac: Seq<char>, ai: Seq<char>, bc: Seq<char>, bi: Seq<char>) -> Seq<char> {
    if asset_lt(bc, bi, ac, ai) {
        asset_text(bc, bi) + seq!['-', '>'] + asset_text(ac, ai)
    } else {
        asset_text(ac, ai) + seq!['-', '>'] + asset_text(bc, bi)
    }
}

/// Why an asset pair was refused.
pub enum PairError {
    /// Not exactly one `->` between two assets.
    PairFormat,
    /// One of the two assets is not exactly `CODE:ISSUER`.
    AssetFormat,
}

/// What parsing `s` gives: the normalized corridor key or the reason for refusal.
pub open spec fn parse_asset_pair_spec(s: Seq<char>) -> Result<Seq<char>, PairError> {
    let n = strip_spaces(s);
    if !(exists|i: int| sole_arrow(n, i)) {
        Err(PairError::PairFormat)
    } else {
        let i = choose|i: int| sole_arrow(n, i);
        let a = n.subrange(0, i);
        let b = n.subrange(i + 2, n.len() as int);
        if (exists|x: int| sole_colon(a, x)) && (exists|y: int| sole_colon(b, y)) {
            let x = choose|x: int| sole_colon(a, x);
            let y = choose|y: int| sole_colon(b, y);
            Ok(corridor_key_spec(a.subrange(0, x), a.subrange(x + 1, a.len() as int),
                b.subrange(0, y), b.subrange(y + 1, b.len() as int)))
        } else {
            Err(PairError::AssetFormat)
        }
    }
}

/// Message of a refused pair.
pub open spec fn pair_format_message() -> Seq<char> {
    "Invalid asset pair format. Expected: 'ASSET_A:ISSUER_A->ASSET_B:ISSUER_B'"@
}

/// Message of a refused asset.
pub open spec fn asset_format_message() -> Seq<char> {
    "Invalid asset format. Each asset must be in format 'CODE:ISSUER'"@
}

/// Display form of a corridor: `CODE_A:ISSUER_A -> CODE_B:ISSUER_B`.
pub fn asset_pair_label(a_code: &str, a_issuer: &str, b_code: &str, b_issuer: &str) -> (r: String)
    ensures
        r@ == asset_text(a_code@, a_issuer@) + seq![' ', '-', '>', ' '] + asset_text(b_code@, b_issuer@),
{
    let mut r = String::new();
    r.append(a_code);
    push_char(&mut r, ':');
    r.append(a_issuer);
    push_char(&mut r, ' ');
    push_char(&mut r, '-');
    push_char(&mut r, '>');
    push_char(&mut r, ' ');
    r.append(b_code);
    push_char(&mut r, ':');
    r.append(b_issuer);
    assert(r@ =~= asset_text(a_code@, a_issuer@) + seq![' ', '-', '>', ' '] + asset_text(b_code@, b_issuer@));
    r
}

fn strip_spaces_exec(s: &str) -> (r: Vec<char>)
    ensures
        r@ == strip_spaces(s@),
{
    let v = chars_of(s);
    let mut r: Vec<char> = Vec::new();
    let mut i: usize = 0;
    while i < v.len()
        invariant
            v@ == s@,
            i <= v@.len(),
            r@ == strip_spaces(v@.subrange(0, i as int)),
        decreases v@.len() - i,
    {
        let c = v[i];
        assert(v@.subrange(0, i + 1).drop_last() =~= v@.subrange(0, i as int));
        if c != ' ' {
            r.push(c);
        }
        i = i + 1;
    }
    assert(v@.subrange(0, i as int) =~= v@);
    r
}

/// The first arrow at or after `from`.
fn find_arrow(n: &Vec<char>, from: usize) -> (r: Option<usize>)
    ensures
        match r {
            Some(p) => from <= p && p + 1 < n@.len() && arrow_at(n@, p as int)
                && forall|j: int| from <= j < p ==> !arrow_at(n@, j),
            None => forall|j: int| from <= j ==> !arrow_at(n@, j),
        },
{
    if n.len() < 2 {
        return None;
    }
    let last = n.len() - 1;
    let mut i: usize = from;
    while i < last
        invariant
            last + 1 == n@.len(),
            from <= i,
            forall|j: int| from <= j < i ==> !arrow_at(n@, j),
        decreases last - i,
    {
        if n[i] == '-' && n[i + 1] == '>' {
            return Some(i);
        }
        i = i + 1;
    }
    None
}

/// The first `:` in `n[from..to]`.
fn find_colon(n: &Vec<char>, from: usize, to: usize) -> (r: Option<usize>)
    requires
        from <= to <= n@.len(),
    ensures
        match r {
            Some(p) => from <= p < to && n@[p as int] == ':'
                && forall|j: int| from <= j < p ==> n@[j] != ':',
            None => forall|j: int| from <= j < to ==> n@[j] != ':',
        },
{
    let mut i: usize = from;
    while i < to
        invariant
            from <= i <= to <= n@.len(),
            forall|j: int| from <= j < i ==> n@[j] != ':',
        decreases to - i,
    {
        if n[i] == ':' {
            return Some(i);
        }
        i = i + 1;
    }
    None
}

/// Whether `a[af..at]` orders strictly before `b[bf..bt]`.
fn lex_lt_range(a: &Vec<char>, af: usize, at: usize, b: &Vec<char>, bf: usize, bt: usize) -> (r: bool)
    requires
        af <= at <= a@.len(),
        bf <= bt <= b@.len(),
    ensures
        r == lex_lt(a@.subrange(af as int, at as int), b@.subrange(bf as int, bt as int)),
{
    let ghost sa = a@.subrange(af as int, at as int);
    let ghost sb = b@.subrange(bf as int, bt as int);
    let mut k: usize = 0;
    while k < at - af && k < bt - bf && a[af + k] == b[bf + k]
        invariant
            af <= at <= a@.len(),
            bf <= bt <= b@.len(),
            sa == a@.subrange(af as int, at as int),
            sb == b@.subrange(bf as int, bt as int),
            common_prefix(sa, sb, k as int),
        decreases at - af - k,
    {
        k = k + 1;
    }
    let r = if k == at - af {
        k < bt - bf
    } else if k == bt - bf {
        false
    } else {
        a[af + k] < b[bf + k]
    };
    proof {
        if r {
            assert(common_prefix(sa, sb, k as int));
        } else {
            assert forall|m: int| common_prefix(sa, sb, m) implies !((m == sa.len() && m < sb.len())
                || (m < sa.len() && m < sb.len() && sa[m] < sb[m])) by {
                if m > k {
                    assert(sa[k as int] == sb[k as int]);
                }
            }
        }
    }
    r
}

/// Reads an asset pair such as `USDC:issuer1->EURC:issuer2` (spaces are
/// ignored) and returns its normalized corridor key.
pub fn parse_asset_pair(asset_pair: &str) -> (r: Result<String, ApiError>)
    ensures
        match parse_asset_pair_spec(asset_pair@) {
            Ok(key) => r matches Ok(k) && k@ == key,
            Err(PairError::PairFormat) => r matches Err(ApiError::BadRequest(m))
                && m@ == pair_format_message(),
            Err(PairError::AssetFormat) => r matches Err(ApiError::BadRequest(m))
                && m@ == asset_format_message(),
        },
{
    let n = strip_spaces_exec(asset_pair);
    let ghost ns = n@;
    let first = find_arrow(&n, 0);
    let p = match first {
        None => {
            return Err(ApiError::BadRequest(
                "Invalid asset pair format. Expected: 'ASSET_A:ISSUER_A->ASSET_B:ISSUER_B'".to_string(),
            ));
        }
        Some(p) => p,
    };
    assert(first == Some(p));
    assert(p + 1 < n@.len());
    if let Some(q) = find_arrow(&n, p + 1) {
        assert(!(exists|i: int| sole_arrow(ns, i))) by {
            assert forall|i: int| !sole_arrow(ns, i) by {
                if sole_arrow(ns, i) {
                    assert(arrow_at(ns, p as int));
                    assert(arrow_at(ns, q as int));
                }
            }
        }
        return Err(ApiError::BadRequest(
            "Invalid asset pair format. Expected: 'ASSET_A:ISSUER_A->ASSET_B:ISSUER_B'".to_string(),
        ));
    }
    assert(sole_arrow(ns, p as int)) by {
        assert forall|j: int| arrow_at(ns, j) implies j == p by {
            if j < p {
            } else if j == p + 1 {
            } else if j > p + 1 {
            }
        }
    }
    let len = n.len();
    let ghost a = ns.subrange(0, p as int);
    let ghost b = ns.subrange(p + 2, len as int);
    let ca = find_colon(&n, 0, p);
    let ca2 = match ca { Some(x) => find_colon(&n, x + 1, p), None => None };
    let cb = find_colon(&n, p + 2, len);
    let cb2 = match cb { Some(y) => find_colon(&n, y + 1, len), None => None };
    match (ca, ca2, cb, cb2) {
        (Some(x), None, Some(y), None) => {
            assert(sole_colon(a, x as int)) by {
                assert forall|j: int| 0 <= j < a.len() && a[j] == ':' implies j == x by {
                    assert(a[j] == ns[j]);
                }
            }
            assert(sole_colon(b, y - p - 2)) by {
                assert forall|j: int| 0 <= j < b.len() && b[j] == ':' implies j == y - p - 2 by {
                    assert(b[j] == ns[j + p + 2]);
                }
            }
            proof {
                assert(a.subrange(0, x as int) =~= ns.subrange(0, x as int));
                assert(a.subrange(x + 1, a.len() as int) =~= ns.subrange(x + 1, p as int));
                assert(b.subrange(0, y - p - 2) =~= ns.subrange(p + 2, y as int));
                assert(b.subrange(y - p - 2 + 1, b.len() as int) =~= ns.subrange(y + 1, len as int));
            }
            Ok(build_key(&n, x, p, y))
        },
        _ => {
            assert(!(exists|x: int| sole_colon(a, x)) || !(exists|y: int| sole_colon(b, y))) by {
                lemma_colons(ns, a, b, p as int, ca, ca2, cb, cb2);
            }
            Err(ApiError::BadRequest(
                "Invalid asset format. Each asset must be in format 'CODE:ISSUER'".to_string(),
            ))
        },
    }
}

/// The corridor key from the text `n` with its first asset in `n[..p]`
/// (colon at `x`) and its second in `n[p + 2..]` (colon at `y`).
fn build_key(n: &Vec<char>, x: usize, p: usize, y: usize) -> (key: String)
    requires
        x < p,
        p + 2 <= y < n@.len(),
    ensures
        key@ == corridor_key_spec(n@.subrange(0, x as int), n@.subrange(x + 1, p as int),
            n@.subrange(p + 2, y as int), n@.subrange(y + 1, n@.len() as int)),
{
    let len = n.len();
    let ghost ns = n@;
    let code_lt = lex_lt_range(n, p + 2, y, n, 0, x);
    let code_gt = lex_lt_range(n, 0, x, n, p + 2, y);
    let issuer_lt = lex_lt_range(n, y + 1, len, n, x + 1, p);
    let swap = code_lt || (!code_gt && issuer_lt);
    proof {
        lemma_lex_trichotomy(ns.subrange(0, x as int), ns.subrange(p + 2, y as int));
    }
    let mut key = String::new();
    if swap {
        append_range(&mut key, n, p + 2, y);
        push_char(&mut key, ':');
        append_range(&mut key, n, y + 1, len);
        push_char(&mut key, '-');
        push_char(&mut key, '>');
        append_range(&mut key, n, 0, x);
        push_char(&mut key, ':');
        append_range(&mut key, n, x + 1, p);
    } else {
        append_range(&mut key, n, 0, x);
        push_char(&mut key, ':');
        append_range(&mut key, n, x + 1, p);
        push_char(&mut key, '-');
        push_char(&mut key, '>');
        append_range(&mut key, n, p + 2, y);
        push_char(&mut key, ':');
        append_range(&mut key, n, y + 1, len);
    }
    assert(key@ =~= corridor_key_spec(ns.subrange(0, x as int), ns.subrange(x + 1, p as int),
        ns.subrange(p + 2, y as int), ns.subrange(y + 1, len as int)));
    key
}

proof fn lemma_lex_trichotomy(a: Seq<char>, b: Seq<char>)
    ensures
        !lex_lt(a, b) && !lex_lt(b, a) ==> a == b,
{
    lemma_lex_total(a, b, 0);
}

proof fn lemma_lex_total(a: Seq<char>, b: Seq<char>, k: int)
    requires
        common_prefix(a, b, k),
    ensures
        a == b || lex_lt(a, b) || lex_lt(b, a),
    decreases a.len() - k,
{
    assert(common_prefix(b, a, k));
    if k == a.len() && k == b.len() {
        assert(a =~= b);
    } else if k == a.len() || k == b.len() {
    } else if a[k] != b[k] {
    } else {
        lemma_lex_total(a, b, k + 1);
    }
}

proof fn lemma_colons(ns: Seq<char>, a: Seq<char>, b: Seq<char>, p: int,
    ca: Option<usize>, ca2: Option<usize>, cb: Option<usize>, cb2: Option<usize>)
    requires
        0 <= p && p + 2 <= ns.len(),
        a == ns.subrange(0, p),
        b == ns.subrange(p + 2, ns.len() as int),
        match ca {
            Some(x) => 0 <= x < p && ns[x as int] == ':' && forall|j: int| 0 <= j < x ==> ns[j] != ':',
            None => forall|j: int| 0 <= j < p ==> ns[j] != ':',
        },
        match (ca, ca2) {
            (Some(x), Some(x2)) => x < x2 < p && ns[x2 as int] == ':',
            (Some(x), None) => forall|j: int| x + 1 <= j < p ==> ns[j] != ':',
            (None, c) => c is None,
        },
        match cb {
            Some(y) => p + 2 <= y < ns.len() && ns[y as int] == ':'
                && forall|j: int| p + 2 <= j < y ==> ns[j] != ':',
            None => forall|j: int| p + 2 <= j < ns.len() ==> ns[j] != ':',
        },
        match (cb, cb2) {
            (Some(y), Some(y2)) => y < y2 < ns.len() && ns[y2 as int] == ':',
            (Some(y), None) => forall|j: int| y + 1 <= j < ns.len() ==> ns[j] != ':',
            (None, c) => c is None,
        },
        !((ca is Some) && (ca2 is None) && (cb is Some) && (cb2 is None)),
    ensures
        !(exists|x: int| sole_colon(a, x)) || !(exists|y: int| sole_colon(b, y)),
{
    if !((ca is Some) && (ca2 is None)) {
        assert forall|x: int| !sole_colon(a, x) by {
            if sole_colon(a, x) {
                assert(a[x] == ns[x]);
                match ca {
                    Some(c1) => {
                        let c2 = ca2.unwrap();
                        assert(a[c1 as int] == ':');
                        assert(a[c2 as int] == ':');
                    },
                    None => {},
                }
            }
        }
    } else {
        assert forall|y: int| !sole_colon(b, y) by {
            if sole_colon(b, y) {
                assert(b[y] == ns[y + p + 2]);
                match cb {
                    Some(c1) => {
                        let c2 = cb2.unwrap();
                        assert(b[c1 - p - 2] == ':');
                        assert(b[c2 - p - 2] == ':');
                    },
                    None => {},
                }
            }
        }
    }
}

} // verus!
