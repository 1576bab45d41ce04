//! Cache key builders. Each logical query maps to one key; the `*` patterns
//! name a whole namespace and serve bulk invalidation only.
use vstd::prelude::*;
use vstd::string::*;
use crate::text::{push_char, push_decimal, int_decimal, lemma_decimal_field};

verus! {

pub open spec fn anchor_list_spec(limit: int, offset: int) -> Seq<char> {
    "anchor:list:"@ + int_decimal(limit) + seq![':'] + int_decimal(offset)
}

pub open spec fn corridor_list_spec(limit: int, offset: int, filters: Seq<char>) -> Seq<char> {
    "corridor:list:"@ + int_decimal(limit) + seq![':'] + int_decimal(offset) + seq![':'] + filters
}

/// `anchor:list:<limit>:<offset>`
pub fn anchor_list(limit: i64, offset: i64) -> (r: String)
    ensures
        r@ == anchor_list_spec(limit as int, offset as int),
{
    let mut s = String::from_str("anchor:list:");
    push_decimal(&mut s, limit);
    s.append(":");
    push_decimal(&mut s, offset);
    proof { reveal_strlit(":"); }
    assert(s@ =~= anchor_list_spec(limit as int, offset as int));
    s
}

/// `anchor:detail:<id>`
pub fn anchor_detail(id: &str) -> (r: String)
    ensures
        r@ == "anchor:detail:"@ + id@,
{
    String::from_str("anchor:detail:").concat(id)
}

/// `anchor:account:<account>`
pub fn anchor_by_account(account: &str) -> (r: String)
    ensures
        r@ == "anchor:account:"@ + account@,
{
    String::from_str("anchor:account:").concat(account)
}

/// `anchor:assets:<anchor_id>`
pub fn anchor_assets(anchor_id: &str) -> (r: String)
    ensures
        r@ == "anchor:assets:"@ + anchor_id@,
{
    String::from_str("anchor:assets:").concat(anchor_id)
}

/// `corridor:list:<limit>:<offset>:<filters>`
pub fn corridor_list(limit: i64, offset: i64, filters: &str) -> (r: String)
    ensures
        r@ == corridor_list_spec(limit as int, offset as int, filters@),
{
    let mut s = String::from_str("corridor:list:");
    push_decimal(&mut s, limit);
    s.append(":");
    push_decimal(&mut s, offset);
    s.append(":");
    s.append(filters);
    proof { reveal_strlit(":"); }
    assert(s@ =~= corridor_list_spec(limit as int, offset as int, filters@));
    s
}

/// `corridor:detail:<corridor_key>`
pub fn corridor_detail(corridor_key: &str) -> (r: String)
    ensures
        r@ == "corridor:detail:"@ + corridor_key@,
{
    String::from_str("corridor:detail:").concat(corridor_key)
}

/// `dashboard:stats`
pub fn dashboard_stats() -> (r: String)
    ensures
        r@ == "dashboard:stats"@,
{
    String::from_str("dashboard:stats")
}

/// `metrics:overview`
pub fn metrics_overview() -> (r: String)
    ensures
        r@ == "metrics:overview"@,
{
    String::from_str("metrics:overview")
}

/// Pattern for invalidating all anchor-related caches.
pub fn anchor_pattern() -> (r: String)
    ensures
        r@ == "anchor:*"@,
{
    String::from_str("anchor:*")
}

/// Pattern for invalidating all corridor-related caches.
pub fn corridor_pattern() -> (r: String)
    ensures
        r@ == "corridor:*"@,
{
    String::from_str("corridor:*")
}

/// Pattern for invalidating all dashboard caches.
pub fn dashboard_pattern() -> (r: String)
    ensures
        r@ == "dashboard:*"@,
{
    String::from_str("dashboard:*")
}

/// Pattern for invalidating the metrics overview caches.
pub fn metrics_pattern() -> (r: String)
    ensures
        r@ == "metrics:*"@,
{
    String::from_str("metrics:*")
}

/// Key of the shared counter of `client` on `endpoint`:
/// `ratelimit:<endpoint>:<client>`.
pub fn shared_counter_key(endpoint: &str, client: &str) -> (r: String)
    ensures
        r@ == "ratelimit:"@ + endpoint@ + seq![':'] + client@,
{
    let mut r = String::from_str("ratelimit:");
    r.append(endpoint);
    push_char(&mut r, ':');
    r.append(client);
    r
}

/// Anchor list keys are order-sensitive: two keys are equal exactly when both
/// the limit and the offset are.
pub proof fn lemma_anchor_list_order_sensitive(l1: int, o1: int, l2: int, o2: int)
    ensures
        (anchor_list_spec(l1, o1) == anchor_list_spec(l2, o2)) == (l1 == l2 && o1 == o2),
{
    if anchor_list_spec(l1, o1) == anchor_list_spec(l2, o2) {
        let p = "anchor:list:"@;
        let a = int_decimal(l1) + seq![':'] + int_decimal(o1);
        let b = int_decimal(l2) + seq![':'] + int_decimal(o2);
        assert(anchor_list_spec(l1, o1) =~= p + a);
        assert(anchor_list_spec(l2, o2) =~= p + b);
        assert(a =~= (p + a).subrange(p.len() as int, (p + a).len() as int));
        assert(b =~= (p + b).subrange(p.len() as int, (p + b).len() as int));
        lemma_decimal_field(l1, int_decimal(o1), l2, int_decimal(o2));
        crate::text::lemma_int_decimal(o1, o2);
    }
}

/// Corridor list keys are order-sensitive: two keys are equal exactly when the
/// limit, the offset and the filters all are.
pub proof fn lemma_corridor_list_order_sensitive(
    l1: int,
    o1: int,
    f1: Seq<char>,
    l2: int,
    o2: int,
    f2: Seq<char>,
)
    ensures
        (corridor_list_spec(l1, o1, f1) == corridor_list_spec(l2, o2, f2)) == (l1 == l2 && o1 == o2
            && f1 == f2),
{
    if corridor_list_spec(l1, o1, f1) == corridor_list_spec(l2, o2, f2) {
        let p = "corridor:list:"@;
        let x1 = int_decimal(o1) + seq![':'] + f1;
        let x2 = int_decimal(o2) + seq![':'] + f2;
        let a = int_decimal(l1) + seq![':'] + x1;
        let b = int_decimal(l2) + seq![':'] + x2;
        assert(corridor_list_spec(l1, o1, f1) =~= p + a);
        assert(corridor_list_spec(l2, o2, f2) =~= p + b);
        assert(a =~= (p + a).subrange(p.len() as int, (p + a).len() as int));
        assert(b =~= (p + b).subrange(p.len() as int, (p + b).len() as int));
        lemma_decimal_field(l1, x1, l2, x2);
        lemma_decimal_field(o1, f1, o2, f2);
    }
}

} // verus!
