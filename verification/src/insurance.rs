//! The insurance policy registry: policies per owner with premiums, an
//! optional external reference that is unique among an owner's active
//! policies, tags, and cursor-based paging over an owner's active policies.

use vstd::prelude::*;

use crate::bytes::{Address, bytes_copy, bytes_eq};
use crate::table::Table;

verus! {

/// Page size used when a caller asks for zero policies.
pub const DEFAULT_PAGE_LIMIT: u32 = 20;

/// The longest page of policies.
pub const MAX_PAGE_LIMIT: u32 = 50;

/// The longest external reference, in bytes.
pub const MAX_EXTERNAL_REF_LEN: u32 = 128;

/// Active policies an owner may hold at once.
pub const MAX_POLICIES_PER_OWNER: u32 = 100;

/// The highest monthly premium a policy may carry.
pub const MAX_MONTHLY_PREMIUM: i128 = 1_000_000_000_000;

/// The highest coverage amount a policy may carry.
pub const MAX_COVERAGE_AMOUNT: i128 = 1_000_000_000_000_000;

/// A premium payment covers this many seconds (thirty days).
pub const PREMIUM_PERIOD_SECS: u64 = 2_592_000;

/// The longest tag, in bytes, after normalisation.
pub const MAX_TAG_LEN: u32 = 32;

#[derive(Clone, Copy, Debug, PartialEq, Eq, Structural)]
pub enum CoverageType {
    Health,
    Life,
    Property,
    Auto,
    Liability,
}

#[derive(Clone, Copy, Debug, PartialEq, Eq, Structural)]
pub enum InsuranceError {
    PolicyNotFound,
    Unauthorized,
    PolicyInactive,
    InvalidExternalRef,
    DuplicateExternalRef,
    MonthlyPremiumTooLow,
    MonthlyPremiumTooHigh,
    CoverageAmountTooLow,
    CoverageAmountTooHigh,
    PolicyLimitExceeded,
    InvalidTagContent,
}

/// An insurance policy.
#[derive(Clone, Debug)]
pub struct InsurancePolicy {
    pub id: u32,
    pub owner: Address,
    pub name: Vec<u8>,
    pub external_ref: Option<Vec<u8>>,
    pub coverage_type: CoverageType,
    pub monthly_premium: i128,
    pub coverage_amount: i128,
    pub active: bool,
    pub next_payment_date: u64,
    pub tags: Vec<Vec<u8>>,
}

/// The byte strings of a list of byte strings.
pub open spec fn texts(s: Seq<Vec<u8>>) -> Seq<Seq<u8>> {
    s.map_values(|t: Vec<u8>| t@)
}

pub open spec fn opt_text(o: Option<Vec<u8>>) -> Option<Seq<u8>> {
    match o {
        Some(t) => Some(t@),
        None => None,
    }
}

/// A policy seen as values.
pub struct PolicyView {
    pub id: u32,
    pub owner: Seq<u8>,
    pub name: Seq<u8>,
    pub external_ref: Option<Seq<u8>>,
    pub coverage_type: CoverageType,
    pub monthly_premium: i128,
    pub coverage_amount: i128,
    pub active: bool,
    pub next_payment_date: u64,
    pub tags: Seq<Seq<u8>>,
}

impl View for InsurancePolicy {
    type V = PolicyView;

    open spec fn view(&self) -> PolicyView {
        PolicyView {
            id: self.id,
            owner: self.owner@,
            name: self.name@,
            external_ref: opt_text(self.external_ref),
            coverage_type: self.coverage_type,
            monthly_premium: self.monthly_premium,
            coverage_amount: self.coverage_amount,
            active: self.active,
            next_payment_date: self.next_payment_date,
            tags: texts(self.tags@),
        }
    }
}

pub open spec fn policy_views(s: Seq<InsurancePolicy>) -> Seq<PolicyView> {
    s.map_values(|p: InsurancePolicy| p@)
}

/// Copies a list of byte strings.
pub fn texts_copy(s: &Vec<Vec<u8>>) -> (r: Vec<Vec<u8>>)
    ensures
        texts(r@) == texts(s@),
{
    let mut r: Vec<Vec<u8>> = Vec::new();
    let mut i: usize = 0;
    while i < s.len()
        invariant
            i <= s.len(),
            texts(r@) == texts(s@).subrange(0, i as int),
        decreases s.len() - i,
    {
        let ghost before = r@;
        r.push(bytes_copy(&s[i]));
        assert(texts(r@) =~= texts(before).push(s@[i as int]@));
        assert(texts(r@) =~= texts(s@).subrange(0, i + 1));
        i = i + 1;
    }
    assert(texts(s@).subrange(0, s.len() as int) =~= texts(s@));
    r
}

impl InsurancePolicy {
    pub fn duplicate(&self) -> (r: InsurancePolicy)
        ensures
            r@ == self@,
    {
        InsurancePolicy {
            id: self.id,
            owner: self.owner.duplicate(),
            name: bytes_copy(&self.name),
            external_ref: match &self.external_ref {
                Some(t) => Some(bytes_copy(t)),
                None => None,
            },
            coverage_type: self.coverage_type,
            monthly_premium: self.monthly_premium,
            coverage_amount: self.coverage_amount,
            active: self.active,
            next_payment_date: self.next_payment_date,
            tags: texts_copy(&self.tags),
        }
    }
}

/// A page of an owner's active policies.
#[derive(Clone, Debug)]
pub struct PolicyPage {
    pub items: Vec<InsurancePolicy>,
    /// The id to resume after, or zero when the page was not full.
    pub next_cursor: u32,
    pub count: u32,
}

/// Announced when a policy's external reference changes.
#[derive(Clone, Debug)]
pub struct ExternalRefUpdatedEvent {
    pub policy_id: u32,
    pub owner: Address,
    pub old_external_ref: Option<Vec<u8>>,
    pub new_external_ref: Option<Vec<u8>>,
    pub timestamp: u64,
}

/// What the registry announces.
#[derive(Clone, Debug)]
pub enum InsuranceEvent {
    ExternalRefUpdated(ExternalRefUpdatedEvent),
    /// Tags were added to a policy (the tags as the caller gave them).
    TagsAdded { policy_id: u32, caller: Address, tags: Vec<Vec<u8>> },
    /// Tags were removed from a policy (the tags as the caller gave them).
    TagsRemoved { policy_id: u32, caller: Address, tags: Vec<Vec<u8>> },
}

pub enum InsuranceEventView {
    ExternalRefUpdated {
        policy_id: u32,
        owner: Seq<u8>,
        old_external_ref: Option<Seq<u8>>,
        new_external_ref: Option<Seq<u8>>,
        timestamp: u64,
    },
    TagsAdded { policy_id: u32, caller: Seq<u8>, tags: Seq<Seq<u8>> },
    TagsRemoved { policy_id: u32, caller: Seq<u8>, tags: Seq<Seq<u8>> },
}

impl View for InsuranceEvent {
    type V = InsuranceEventView;

    open spec fn view(&self) -> InsuranceEventView {
        match self {
            InsuranceEvent::ExternalRefUpdated(e) => InsuranceEventView::ExternalRefUpdated {
                policy_id: e.policy_id,
                owner: e.owner@,
                old_external_ref: opt_text(e.old_external_ref),
                new_external_ref: opt_text(e.new_external_ref),
                timestamp: e.timestamp,
            },
            InsuranceEvent::TagsAdded { policy_id, caller, tags } => InsuranceEventView::TagsAdded {
                policy_id: *policy_id,
                caller: caller@,
                tags: texts(tags@),
            },
            InsuranceEvent::TagsRemoved { policy_id, caller, tags } => InsuranceEventView::TagsRemoved {
                policy_id: *policy_id,
                caller: caller@,
                tags: texts(tags@),
            },
        }
    }
}

pub open spec fn insurance_event_views(s: Seq<InsuranceEvent>) -> Seq<InsuranceEventView> {
    s.map_values(|e: InsuranceEvent| e@)
}

/// Whether `p` is an active policy of `owner`.
pub open spec fn active_of(p: InsurancePolicy, owner: Seq<u8>) -> bool {
    p.owner@ == owner && p.active
}

/// The number of active policies of `owner` in `s`.
pub open spec fn count_active(s: Seq<InsurancePolicy>, owner: Seq<u8>) -> nat
    decreases s.len(),
{
    if s.len() == 0 {
        0
    } else {
        count_active(s.drop_last(), owner) + if active_of(s.last(), owner) {
            1nat
        } else {
            0nat
        }
    }
}

pub proof fn lemma_count_push(s: Seq<InsurancePolicy>, p: InsurancePolicy, owner: Seq<u8>)
    ensures
        count_active(s.push(p), owner) == count_active(s, owner) + if active_of(p, owner) {
            1nat
        } else {
            0nat
        },
{
    assert(s.push(p).drop_last() =~= s);
}

pub proof fn lemma_count_update(s: Seq<InsurancePolicy>, i: int, p: InsurancePolicy, owner: Seq<u8>)
    requires
        0 <= i < s.len(),
    ensures
        count_active(s.update(i, p), owner) + (if active_of(s[i], owner) {
            1nat
        } else {
            0nat
        }) == count_active(s, owner) + (if active_of(p, owner) {
            1nat
        } else {
            0nat
        }),
    decreases s.len(),
{
    if i == s.len() - 1 {
        assert(s.update(i, p).drop_last() =~= s.drop_last());
    } else {
        assert(s.update(i, p).drop_last() =~= s.drop_last().update(i, p));
        lemma_count_update(s.drop_last(), i, p, owner);
    }
}

pub proof fn lemma_count_remove(s: Seq<InsurancePolicy>, i: int, owner: Seq<u8>)
    requires
        0 <= i < s.len(),
    ensures
        count_active(s.remove(i), owner) + (if active_of(s[i], owner) {
            1nat
        } else {
            0nat
        }) == count_active(s, owner),
    decreases s.len(),
{
    if i == s.len() - 1 {
        assert(s.remove(i) =~= s.drop_last());
    } else {
        assert(s.remove(i).drop_last() =~= s.drop_last().remove(i));
        lemma_count_remove(s.drop_last(), i, owner);
    }
}

pub proof fn lemma_count_prefix(s: Seq<InsurancePolicy>, i: int, owner: Seq<u8>)
    requires
        0 <= i <= s.len(),
    ensures
        count_active(s.subrange(0, i), owner) <= count_active(s, owner),
    decreases s.len() - i,
{
    if i < s.len() {
        lemma_count_prefix(s, i + 1, owner);
        assert(s.subrange(0, i + 1).drop_last() =~= s.subrange(0, i));
    } else {
        assert(s.subrange(0, i) =~= s);
    }
}

pub open spec fn seq_has(s: Seq<InsurancePolicy>, id: u32) -> bool {
    exists|i: int| 0 <= i < s.len() && #[trigger] s[i].id == id
}

pub open spec fn seq_slot(s: Seq<InsurancePolicy>, id: u32) -> int {
    choose|i: int| 0 <= i < s.len() && #[trigger] s[i].id == id
}

/// The policies of `s` by id.
pub open spec fn map_of(s: Seq<InsurancePolicy>) -> Map<u32, PolicyView> {
    Map::new(|id: u32| seq_has(s, id), |id: u32| s[seq_slot(s, id)]@)
}

/// The policy an external-reference index names for `owner` and `reference`.
pub open spec fn holder_in(idx: Table<Table<u32>>, owner: Seq<u8>, reference: Seq<u8>) -> Option<u32> {
    if idx@.dom().contains(owner) && idx@[owner]@.dom().contains(reference) {
        Some(idx@[owner]@[reference])
    } else {
        None
    }
}

/// Ids ascend along `s`.
pub open spec fn ascending(s: Seq<InsurancePolicy>) -> bool {
    forall|i: int, j: int| 0 <= i < j < s.len() ==> #[trigger] s[i].id < #[trigger] s[j].id
}

/// In an ascending sequence, the policy at `i` is the one the map holds under its id.
pub proof fn lemma_map_lookup(s: Seq<InsurancePolicy>, i: int)
    requires
        ascending(s),
        0 <= i < s.len(),
    ensures
        seq_has(s, s[i].id),
        seq_slot(s, s[i].id) == i,
        map_of(s).dom().contains(s[i].id),
        map_of(s)[s[i].id] == s[i]@,
{
    let id = s[i].id;
    assert(seq_has(s, id));
    let j = seq_slot(s, id);
    if j < i {
        assert(s[j].id < s[i].id);
    }
    if j > i {
        assert(s[i].id < s[j].id);
    }
}

/// Replacing the policy at `i` by one with the same id replaces it in the map.
pub proof fn lemma_map_update(s: Seq<InsurancePolicy>, i: int, p: InsurancePolicy)
    requires
        ascending(s),
        0 <= i < s.len(),
        p.id == s[i].id,
    ensures
        ascending(s.update(i, p)),
        map_of(s.update(i, p)) == map_of(s).insert(p.id, p@),
{
    let t = s.update(i, p);
    assert forall|a: int, b: int| 0 <= a < b < t.len() implies #[trigger] t[a].id < #[trigger] t[b].id by {
        assert(s[a].id < s[b].id);
    }
    assert forall|x: u32| #[trigger] map_of(t).dom().contains(x) == map_of(s).insert(p.id, p@).dom().contains(x) by {
        if seq_has(t, x) {
            let j = seq_slot(t, x);
            assert(s[j].id == x);
        }
        if seq_has(s, x) {
            let j = seq_slot(s, x);
            assert(t[j].id == x);
        }
    }
    assert forall|x: u32| #[trigger] map_of(t).dom().contains(x) implies map_of(t)[x] == map_of(s).insert(
        p.id,
        p@,
    )[x] by {
        let j = seq_slot(t, x);
        lemma_map_lookup(t, j);
        if j != i {
            lemma_map_lookup(s, j);
        }
    }
    assert(map_of(t) =~= map_of(s).insert(p.id, p@));
}

/// Removing the policy at `i` removes it from the map.
pub proof fn lemma_map_remove(s: Seq<InsurancePolicy>, i: int)
    requires
        ascending(s),
        0 <= i < s.len(),
    ensures
        ascending(s.remove(i)),
        map_of(s.remove(i)) == map_of(s).remove(s[i].id),
{
    let t = s.remove(i);
    assert forall|a: int| 0 <= a < t.len() implies #[trigger] t[a] == s[if a < i {
        a
    } else {
        a + 1
    }] by {}
    assert forall|a: int, b: int| 0 <= a < b < t.len() implies #[trigger] t[a].id < #[trigger] t[b].id by {
        let a1 = if a < i {
            a
        } else {
            a + 1
        };
        let b1 = if b < i {
            b
        } else {
            b + 1
        };
        assert(t[a] == s[a1]);
        assert(t[b] == s[b1]);
        assert(s[a1].id < s[b1].id);
    }
    assert forall|x: u32| #[trigger] map_of(t).dom().contains(x) == map_of(s).remove(s[i].id).dom().contains(x) by {
        if seq_has(t, x) {
            let j = seq_slot(t, x);
            let j1 = if j < i {
                j
            } else {
                j + 1
            };
            assert(t[j] == s[j1]);
            assert(s[j1].id == x);
            if x == s[i].id {
                lemma_map_lookup(s, j1);
                lemma_map_lookup(s, i);
            }
        }
        if seq_has(s, x) && x != s[i].id {
            let j = seq_slot(s, x);
            assert(j != i);
            let j1 = if j < i {
                j
            } else {
                j - 1
            };
            assert(t[j1] == s[j]);
        }
    }
    assert forall|x: u32| #[trigger] map_of(t).dom().contains(x) implies map_of(t)[x] == map_of(s).remove(
        s[i].id,
    )[x] by {
        let j = seq_slot(t, x);
        lemma_map_lookup(t, j);
        let j1 = if j < i {
            j
        } else {
            j + 1
        };
        assert(t[j] == s[j1]);
        lemma_map_lookup(s, j1);
    }
    assert(map_of(t) =~= map_of(s).remove(s[i].id));
}

/// Whether two optional byte strings are equal.
pub fn opt_bytes_eq(a: &Option<Vec<u8>>, b: &Option<Vec<u8>>) -> (r: bool)
    ensures
        r == (opt_text(*a) == opt_text(*b)),
{
    match (a, b) {
        (None, None) => true,
        (Some(x), Some(y)) => bytes_eq(x, y),
        _ => false,
    }
}

pub fn opt_bytes_copy(a: &Option<Vec<u8>>) -> (r: Option<Vec<u8>>)
    ensures
        opt_text(r) == opt_text(*a),
{
    match a {
        Some(t) => Some(bytes_copy(t)),
        None => None,
    }
}

/// Whether `caller` may pay the premium of policy `id`: it is stored,
/// active, and the caller owns it.
pub open spec fn pay_eligible(m: Map<u32, PolicyView>, caller: Seq<u8>, id: u32) -> bool {
    m.dom().contains(id) && m[id].owner == caller && m[id].active
}

/// How many entries of `ids` name a policy `caller` may pay (repeats count).
pub open spec fn count_payable(m: Map<u32, PolicyView>, caller: Seq<u8>, ids: Seq<u32>) -> nat
    decreases ids.len(),
{
    if ids.len() == 0 {
        0
    } else {
        count_payable(m, caller, ids.drop_last()) + if pay_eligible(m, caller, ids.last()) {
            1nat
        } else {
            0nat
        }
    }
}

/// The policies after `caller` paid the premiums of `ids` at a time whose
/// next due date is `due`.
pub open spec fn paid_map(m: Map<u32, PolicyView>, caller: Seq<u8>, ids: Seq<u32>, due: u64) -> Map<u32, PolicyView> {
    Map::new(
        |x: u32| m.dom().contains(x),
        |x: u32| if pay_eligible(m, caller, x) && ids.contains(x) {
            PolicyView { next_payment_date: due, ..m[x] }
        } else {
            m[x]
        },
    )
}

/// The sum of the monthly premiums of the active policies among `ids`.
pub open spec fn premium_total(m: Map<u32, PolicyView>, ids: Seq<u32>) -> int
    decreases ids.len(),
{
    if ids.len() == 0 {
        0
    } else {
        premium_total(m, ids.drop_last()) + if m.dom().contains(ids.last()) && m[ids.last()].active {
            m[ids.last()].monthly_premium as int
        } else {
            0
        }
    }
}

/// Whether policy `id` belongs on a page that resumes after `cursor`.
pub open spec fn page_eligible(m: Map<u32, PolicyView>, cursor: u32, id: u32) -> bool {
    id > cursor && m.dom().contains(id) && m[id].active
}

/// The ids among `ids`, in order, that belong on a page resuming after `cursor`.
pub open spec fn eligible_after(m: Map<u32, PolicyView>, ids: Seq<u32>, cursor: u32) -> Seq<u32>
    decreases ids.len(),
{
    if ids.len() == 0 {
        Seq::empty()
    } else {
        let rest = eligible_after(m, ids.drop_last(), cursor);
        if page_eligible(m, cursor, ids.last()) {
            rest.push(ids.last())
        } else {
            rest
        }
    }
}

/// Filtering a prefix of `ids` gives a prefix of the filtered `ids`.
pub proof fn lemma_eligible_prefix(m: Map<u32, PolicyView>, ids: Seq<u32>, cursor: u32, a: int)
    requires
        0 <= a <= ids.len(),
    ensures
        eligible_after(m, ids.subrange(0, a), cursor).len() <= eligible_after(m, ids, cursor).len(),
        eligible_after(m, ids, cursor).subrange(0, eligible_after(m, ids.subrange(0, a), cursor).len() as int)
            == eligible_after(m, ids.subrange(0, a), cursor),
    decreases ids.len() - a,
{
    if a == ids.len() {
        assert(ids.subrange(0, a) =~= ids);
        assert(eligible_after(m, ids, cursor).subrange(0, eligible_after(m, ids, cursor).len() as int)
            =~= eligible_after(m, ids, cursor));
    } else {
        lemma_eligible_prefix(m, ids, cursor, a + 1);
        let p = ids.subrange(0, a + 1);
        assert(p.drop_last() =~= ids.subrange(0, a));
        let short = eligible_after(m, ids.subrange(0, a), cursor);
        let long = eligible_after(m, p, cursor);
        let full = eligible_after(m, ids, cursor);
        assert(full.subrange(0, short.len() as int) =~= long.subrange(0, short.len() as int));
        assert(long.subrange(0, short.len() as int) =~= short);
    }
}

/// Every id the filter keeps is eligible and comes from `ids`.
pub proof fn lemma_eligible_members(m: Map<u32, PolicyView>, ids: Seq<u32>, cursor: u32)
    ensures
        forall|j: int| 0 <= j < eligible_after(m, ids, cursor).len() ==> page_eligible(
            m,
            cursor,
            #[trigger] eligible_after(m, ids, cursor)[j],
        ) && ids.contains(eligible_after(m, ids, cursor)[j]),
    decreases ids.len(),
{
    if ids.len() > 0 {
        lemma_eligible_members(m, ids.drop_last(), cursor);
        let e = eligible_after(m, ids, cursor);
        assert forall|j: int| 0 <= j < e.len() implies page_eligible(m, cursor, #[trigger] e[j]) && ids.contains(e[j]) by {
            let r = eligible_after(m, ids.drop_last(), cursor);
            if j < r.len() {
                assert(e[j] == r[j]);
                let w = choose|w: int| 0 <= w < ids.drop_last().len() && ids.drop_last()[w] == r[j];
                assert(ids[w] == r[j]);
            } else {
                assert(e[j] == ids.last());
                assert(ids[ids.len() - 1] == ids.last());
            }
        }
    }
}

/// The ids a page holds: the first `lim` eligible ids.
pub open spec fn page_ids(m: Map<u32, PolicyView>, ids: Seq<u32>, cursor: u32, lim: u32) -> Seq<u32> {
    let e = eligible_after(m, ids, cursor);
    if e.len() > lim {
        e.subrange(0, lim as int)
    } else {
        e
    }
}

/// A byte in lower case (ASCII letters only).
pub open spec fn lower(b: u8) -> u8 {
    if 65 <= b <= 90 {
        (b + 32) as u8
    } else {
        b
    }
}

/// A byte a tag may hold once lowered: a letter, a digit, `_` or `-`.
pub open spec fn tag_byte_ok(b: u8) -> bool {
    (97 <= b <= 122) || (48 <= b <= 57) || b == 95 || b == 45
}

/// A tag is between 1 and `MAX_TAG_LEN` bytes of allowed characters.
pub open spec fn tag_valid(t: Seq<u8>) -> bool {
    0 < t.len() <= MAX_TAG_LEN && forall|i: int| 0 <= i < t.len() ==> tag_byte_ok(lower(#[trigger] t[i]))
}

/// The stored form of a tag: lower case.
pub open spec fn normalize_tag(t: Seq<u8>) -> Seq<u8> {
    t.map_values(|b: u8| lower(b))
}

pub open spec fn tags_valid(ts: Seq<Seq<u8>>) -> bool {
    forall|i: int| 0 <= i < ts.len() ==> tag_valid(#[trigger] ts[i])
}

/// The tags of `ts` that are not listed in `removed`, in order.
pub open spec fn without(ts: Seq<Seq<u8>>, removed: Seq<Seq<u8>>) -> Seq<Seq<u8>>
    decreases ts.len(),
{
    if ts.len() == 0 {
        Seq::empty()
    } else {
        let rest = without(ts.drop_last(), removed);
        if removed.contains(ts.last()) {
            rest
        } else {
            rest.push(ts.last())
        }
    }
}

fn lower_byte(b: u8) -> (r: u8)
    ensures
        r == lower(b),
{
    if 65 <= b && b <= 90 {
        b + 32
    } else {
        b
    }
}

/// Checks and lowers one tag.
pub fn normalize_one_tag(tag: &Vec<u8>) -> (r: Option<Vec<u8>>)
    ensures
        r is Some <==> tag_valid(tag@),
        r matches Some(t) ==> t@ == normalize_tag(tag@),
{
    if tag.len() == 0 || tag.len() > MAX_TAG_LEN as usize {
        return None;
    }
    let mut out: Vec<u8> = Vec::new();
    let mut i: usize = 0;
    while i < tag.len()
        invariant
            i <= tag.len(),
            out@ == normalize_tag(tag@).subrange(0, i as int),
            forall|j: int| 0 <= j < i ==> tag_byte_ok(lower(#[trigger] tag@[j])),
        decreases tag.len() - i,
    {
        let b = lower_byte(tag[i]);
        if !((97 <= b && b <= 122) || (48 <= b && b <= 57) || b == 95 || b == 45) {
            return None;
        }
        out.push(b);
        assert(out@ =~= normalize_tag(tag@).subrange(0, i + 1));
        i = i + 1;
    }
    assert(normalize_tag(tag@).subrange(0, tag.len() as int) =~= normalize_tag(tag@));
    Some(out)
}

/// Checks and lowers a batch of tags; one invalid tag refuses the batch.
pub fn normalize_tags(tags: &Vec<Vec<u8>>) -> (r: Result<Vec<Vec<u8>>, InsuranceError>)
    ensures
        r is Ok <==> tags_valid(texts(tags@)),
        r matches Err(e) ==> e == InsuranceError::InvalidTagContent,
        r matches Ok(v) ==> texts(v@) == texts(tags@).map_values(|t: Seq<u8>| normalize_tag(t)),
{
    let mut out: Vec<Vec<u8>> = Vec::new();
    let mut i: usize = 0;
    while i < tags.len()
        invariant
            i <= tags.len(),
            texts(out@) == texts(tags@).map_values(|t: Seq<u8>| normalize_tag(t)).subrange(0, i as int),
            forall|j: int| 0 <= j < i ==> tag_valid(#[trigger] texts(tags@)[j]),
        decreases tags.len() - i,
    {
        match normalize_one_tag(&tags[i]) {
            None => {
                assert(!tag_valid(texts(tags@)[i as int]));
                return Err(InsuranceError::InvalidTagContent);
            },
            Some(t) => {
                let ghost before = out@;
                out.push(t);
                assert(texts(out@) =~= texts(before).push(normalize_tag(tags@[i as int]@)));
                assert(texts(out@) =~= texts(tags@).map_values(|t: Seq<u8>| normalize_tag(t)).subrange(0, i + 1));
            },
        }
        i = i + 1;
    }
    assert(texts(tags@).map_values(|t: Seq<u8>| normalize_tag(t)).subrange(0, tags.len() as int)
        =~= texts(tags@).map_values(|t: Seq<u8>| normalize_tag(t)));
    Ok(out)
}

/// The registry's stored state.
pub struct Insurance {
    pub pause_admin: Option<Address>,
    /// The last id handed out (zero before the first policy).
    pub next_id: u32,
    /// Every stored policy, by ascending id.
    pub policies: Vec<InsurancePolicy>,
    /// The ids of each owner's policies, active or not, oldest first.
    pub owner_index: Table<Vec<u32>>,
    /// For each owner, the external references of active policies and the
    /// policy that holds each.
    pub ext_ref_index: Table<Table<u32>>,
}

impl Insurance {
    pub open spec fn has_policy(&self, id: u32) -> bool {
        seq_has(self.policies@, id)
    }

    pub open spec fn slot_of(&self, id: u32) -> int {
        seq_slot(self.policies@, id)
    }

    /// The stored policies by id.
    pub open spec fn policy_map(&self) -> Map<u32, PolicyView> {
        map_of(self.policies@)
    }

    /// The ids listed for `owner`.
    pub open spec fn ids_of(&self, owner: Seq<u8>) -> Seq<u32> {
        if self.owner_index@.dom().contains(owner) {
            self.owner_index@[owner]@
        } else {
            Seq::empty()
        }
    }

    /// The policy that the index names for `owner` and `reference`, if any.
    pub open spec fn ref_holder(&self, owner: Seq<u8>, reference: Seq<u8>) -> Option<u32> {
        holder_in(self.ext_ref_index, owner, reference)
    }

    /// The index tables are well formed.
    pub open spec fn tables_wf(&self) -> bool {
        &&& self.owner_index.wf()
        &&& self.ext_ref_index.wf()
        &&& forall|o: Seq<u8>| #[trigger] self.ext_ref_index@.dom().contains(o) ==> self.ext_ref_index@[o].wf()
    }

    /// The owner index and the policies agree: an id listed for an owner
    /// that names a stored policy names one of that owner's policies, and
    /// every stored policy is listed under its owner.
    pub open spec fn owners_listed(&self) -> bool {
        &&& forall|o: Seq<u8>, a: int|
            0 <= a < self.ids_of(o).len() && self.policy_map().dom().contains(#[trigger] self.ids_of(o)[a])
                ==> self.policy_map()[self.ids_of(o)[a]].owner == o
        &&& forall|id: u32| #[trigger]
            self.policy_map().dom().contains(id) ==> self.ids_of(self.policy_map()[id].owner).contains(id)
    }

    /// The stored state is consistent.
    pub open spec fn wf(&self) -> bool {
        &&& self.tables_wf()
        &&& self.owners_listed()
        &&& self.index_complete()
        // each owner's id list ascends and stays within the ids handed out
        &&& forall|o: Seq<u8>| #[trigger] self.owner_index@.dom().contains(o) ==> {
            let ids = self.owner_index@[o]@;
            &&& forall|a: int, b: int| 0 <= a < b < ids.len() ==> #[trigger] ids[a] < #[trigger] ids[b]
            &&& forall|a: int| 0 <= a < ids.len() ==> #[trigger] ids[a] <= self.next_id
        }
        // no owner holds more active policies than allowed
        &&& forall|o: Seq<u8>| #[trigger] count_active(self.policies@, o) <= MAX_POLICIES_PER_OWNER
        // ids ascend, and none exceeds the last id handed out
        &&& ascending(self.policies@)
        &&& forall|i: int| 0 <= i < self.policies.len() ==> 0 < #[trigger] self.policies@[i].id <= self.next_id
        // premiums and coverage stay within their bounds
        &&& forall|i: int| 0 <= i < self.policies.len() ==> {
            &&& 0 < #[trigger] self.policies@[i].monthly_premium <= MAX_MONTHLY_PREMIUM
            &&& 0 < self.policies@[i].coverage_amount <= MAX_COVERAGE_AMOUNT
        }
        // every index entry names an active policy of that owner holding that reference
        &&& forall|o: Seq<u8>, r: Seq<u8>| #[trigger] self.ref_holder(o, r) is Some ==> {
            let id = self.ref_holder(o, r)->Some_0;
            &&& self.policy_map().dom().contains(id)
            &&& self.policy_map()[id].active
            &&& self.policy_map()[id].owner == o
            &&& self.policy_map()[id].external_ref == Some(r)
        }
    }

    /// Every active policy that holds a reference is the one the index names
    /// for its owner and that reference.
    pub open spec fn index_complete(&self) -> bool {
        forall|id: u32| #[trigger]
            self.policy_map().dom().contains(id) && self.policy_map()[id].active
                && self.policy_map()[id].external_ref is Some ==> self.ref_holder(
                self.policy_map()[id].owner,
                self.policy_map()[id].external_ref->Some_0,
            ) == Some(id)
    }

    /// The slot of the policy with `id` holds it.
    pub proof fn lemma_slot(&self, i: int)
        requires
            self.wf(),
            0 <= i < self.policies.len(),
        ensures
            self.has_policy(self.policies@[i].id),
            self.slot_of(self.policies@[i].id) == i,
            self.policy_map().dom().contains(self.policies@[i].id),
            self.policy_map()[self.policies@[i].id] == self.policies@[i]@,
    {
        let id = self.policies@[i].id;
        assert(self.has_policy(id));
        let j = self.slot_of(id);
        if j < i {
            assert(self.policies@[j].id < self.policies@[i].id);
        }
        if j > i {
            assert(self.policies@[i].id < self.policies@[j].id);
        }
    }

    /// The state of a freshly deployed registry.
    pub fn new() -> (r: Insurance)
        ensures
            r.wf(),
            r.next_id == 0,
            r.policy_map() == Map::<u32, PolicyView>::empty(),
            r.owner_index@ == Map::<Seq<u8>, Vec<u32>>::empty(),
            r.ext_ref_index@ == Map::<Seq<u8>, Table<u32>>::empty(),
            r.policies@.len() == 0,
            r.pause_admin is None,
    {
        let r = Insurance {
            pause_admin: None,
            next_id: 0,
            policies: Vec::new(),
            owner_index: Table::new(),
            ext_ref_index: Table::new(),
        };
        assert(r.policy_map() =~= Map::<u32, PolicyView>::empty());
        r
    }

    /// Clamps a page size: zero asks for `DEFAULT_PAGE_LIMIT`, and no page
    /// is longer than `MAX_PAGE_LIMIT`.
    pub fn clamp_limit(limit: u32) -> (r: u32)
        ensures
            r == Self::clamped(limit),
    {
        if limit == 0 {
            DEFAULT_PAGE_LIMIT
        } else if limit > MAX_PAGE_LIMIT {
            MAX_PAGE_LIMIT
        } else {
            limit
        }
    }

    pub open spec fn clamped(limit: u32) -> u32 {
        if limit == 0 {
            DEFAULT_PAGE_LIMIT
        } else if limit > MAX_PAGE_LIMIT {
            MAX_PAGE_LIMIT
        } else {
            limit
        }
    }

    /// An external reference holds between 1 and `MAX_EXTERNAL_REF_LEN` bytes.
    pub fn validate_external_ref(ext_ref: &Vec<u8>) -> (r: Result<(), InsuranceError>)
        ensures
            r is Ok <==> 0 < ext_ref@.len() <= MAX_EXTERNAL_REF_LEN,
            r is Err ==> r == Err::<(), InsuranceError>(InsuranceError::InvalidExternalRef),
    {
        let len = ext_ref.len();
        if len == 0 || len > MAX_EXTERNAL_REF_LEN as usize {
            return Err(InsuranceError::InvalidExternalRef);
        }
        Ok(())
    }

    /// The slot of the policy with `id`, if one is stored.
    pub fn find_policy(&self, id: u32) -> (r: Option<usize>)
        requires
            self.wf(),
        ensures
            match r {
                Some(i) => i < self.policies.len() && self.policies@[i as int].id == id
                    && self.policy_map().dom().contains(id) && self.policy_map()[id] == self.policies@[i as int]@,
                None => !self.policy_map().dom().contains(id),
            },
    {
        let mut i: usize = 0;
        while i < self.policies.len()
            invariant
                self.wf(),
                i <= self.policies.len(),
                forall|j: int| 0 <= j < i ==> #[trigger] self.policies@[j].id != id,
            decreases self.policies.len() - i,
        {
            if self.policies[i].id == id {
                proof {
                    self.lemma_slot(i as int);
                }
                return Some(i);
            }
            i = i + 1;
        }
        None
    }

    /// The policy with `id`, if one is stored.
    pub fn get_policy(&self, policy_id: u32) -> (r: Option<&InsurancePolicy>)
        requires
            self.wf(),
        ensures
            match r {
                Some(p) => self.policy_map().dom().contains(policy_id) && p@ == self.policy_map()[policy_id],
                None => !self.policy_map().dom().contains(policy_id),
            },
    {
        match self.find_policy(policy_id) {
            Some(i) => Some(&self.policies[i]),
            None => None,
        }
    }

    /// The policy that the index names for `owner` and `reference`, if any.
    pub fn ext_idx_get(&self, owner: &Address, reference: &Vec<u8>) -> (r: Option<u32>)
        requires
            self.wf(),
        ensures
            r == self.ref_holder(owner@, reference@),
    {
        match self.ext_ref_index.get(&owner.bytes) {
            None => None,
            Some(inner) => match inner.get(reference) {
                Some(id) => Some(*id),
                None => None,
            },
        }
    }

    /// The number of active policies `owner` holds.
    pub fn owner_active_count(&self, owner: &Address) -> (n: u32)
        requires
            self.wf(),
        ensures
            n == count_active(self.policies@, owner@),
    {
        let mut n: u32 = 0;
        let mut i: usize = 0;
        while i < self.policies.len()
            invariant
                self.wf(),
                i <= self.policies.len(),
                n == count_active(self.policies@.subrange(0, i as int), owner@),
                n <= i,
            decreases self.policies.len() - i,
        {
            proof {
                assert(self.policies@.subrange(0, i + 1).drop_last() =~= self.policies@.subrange(0, i as int));
            }
            proof {
                lemma_count_prefix(self.policies@, i + 1, owner@);
            }
            if self.policies[i].active && self.policies[i].owner.same(owner) {
                n = n + 1;
            }
            i = i + 1;
        }
        assert(self.policies@.subrange(0, self.policies.len() as int) =~= self.policies@);
        n
    }

    /// Makes the index name policy `id` for `owner` and `reference`.
    pub fn ext_idx_insert(&mut self, owner: &Address, reference: &Vec<u8>, id: u32)
        requires
            old(self).tables_wf(),
        ensures
            final(self).tables_wf(),
            forall|o: Seq<u8>, r: Seq<u8>| #[trigger]
                final(self).ref_holder(o, r) == if o == owner@ && r == reference@ {
                    Some(id)
                } else {
                    old(self).ref_holder(o, r)
                },
            final(self).policies == old(self).policies,
            final(self).owner_index == old(self).owner_index,
            final(self).next_id == old(self).next_id,
            final(self).pause_admin == old(self).pause_admin,
    {
        let ghost pre = self.ext_ref_index;
        let mut inner = match self.ext_ref_index.remove(&owner.bytes) {
            Some(t) => t,
            None => Table::new(),
        };
        let ghost pre_inner = inner;
        inner.set(bytes_copy(reference), id);
        self.ext_ref_index.set(bytes_copy(&owner.bytes), inner);
        proof {
            assert forall|o: Seq<u8>| #[trigger] self.ext_ref_index@.dom().contains(o) implies self.ext_ref_index@[o].wf() by {
                if o != owner@ {
                    assert(pre@.dom().contains(o));
                }
            }
            assert forall|o: Seq<u8>, r: Seq<u8>| #[trigger]
                self.ref_holder(o, r) == if o == owner@ && r == reference@ {
                    Some(id)
                } else {
                    old(self).ref_holder(o, r)
                } by {
                if o == owner@ {
                    if pre@.dom().contains(o) {
                        assert(pre_inner@ == pre@[o]@);
                    } else {
                        assert(pre_inner@ == Map::<Seq<u8>, u32>::empty());
                    }
                }
            }
        }
    }

    /// Drops the index entry for `owner` and `reference`.
    pub fn ext_idx_remove(&mut self, owner: &Address, reference: &Vec<u8>)
        requires
            old(self).tables_wf(),
        ensures
            final(self).tables_wf(),
            forall|o: Seq<u8>, r: Seq<u8>| #[trigger]
                final(self).ref_holder(o, r) == if o == owner@ && r == reference@ {
                    None
                } else {
                    old(self).ref_holder(o, r)
                },
            final(self).policies == old(self).policies,
            final(self).owner_index == old(self).owner_index,
            final(self).next_id == old(self).next_id,
            final(self).pause_admin == old(self).pause_admin,
    {
        let ghost pre = self.ext_ref_index;
        match self.ext_ref_index.remove(&owner.bytes) {
            None => {
                assert(self.ext_ref_index@ =~= pre@);
            },
            Some(mut inner) => {
                let ghost pre_inner = inner;
                assert(inner.wf());
                inner.remove(reference);
                self.ext_ref_index.set(bytes_copy(&owner.bytes), inner);
                proof {
                    assert forall|o: Seq<u8>| #[trigger] self.ext_ref_index@.dom().contains(o) implies self.ext_ref_index@[o].wf() by {
                        if o != owner@ {
                            assert(pre@.dom().contains(o));
                        }
                    }
                    assert forall|o: Seq<u8>, r: Seq<u8>| #[trigger]
                        self.ref_holder(o, r) == if o == owner@ && r == reference@ {
                            None
                        } else {
                            old(self).ref_holder(o, r)
                        } by {
                        if o == owner@ {
                            assert(pre_inner@ == pre@[o]@);
                        }
                    }
                }
            },
        }
    }

    /// Why a new policy would be refused, checked in this order: an invalid
    /// external reference, the premium, the coverage, the owner's cap on
    /// active policies, an external reference already held.
    pub open spec fn create_refusal(
        &self,
        owner: Seq<u8>,
        monthly_premium: i128,
        coverage_amount: i128,
        external_ref: Option<Seq<u8>>,
    ) -> Option<InsuranceError> {
        if external_ref is Some && !(0 < external_ref->Some_0.len() <= MAX_EXTERNAL_REF_LEN) {
            Some(InsuranceError::InvalidExternalRef)
        } else if monthly_premium <= 0 {
            Some(InsuranceError::MonthlyPremiumTooLow)
        } else if monthly_premium > MAX_MONTHLY_PREMIUM {
            Some(InsuranceError::MonthlyPremiumTooHigh)
        } else if coverage_amount <= 0 {
            Some(InsuranceError::CoverageAmountTooLow)
        } else if coverage_amount > MAX_COVERAGE_AMOUNT {
            Some(InsuranceError::CoverageAmountTooHigh)
        } else if count_active(self.policies@, owner) >= MAX_POLICIES_PER_OWNER {
            Some(InsuranceError::PolicyLimitExceeded)
        } else if external_ref is Some && self.ref_holder(owner, external_ref->Some_0) is Some {
            Some(InsuranceError::DuplicateExternalRef)
        } else {
            None
        }
    }

    /// Why creating a policy with these terms for `owner` would be refused,
    /// in the order checked; `None` when it would be created.
    pub fn creation_refusal(
        &self,
        owner: &Address,
        monthly_premium: i128,
        coverage_amount: i128,
        external_ref: &Option<Vec<u8>>,
    ) -> (r: Option<InsuranceError>)
        requires
            self.wf(),
        ensures
            r == self.create_refusal(owner@, monthly_premium, coverage_amount, opt_text(*external_ref)),
    {
        if let Some(reference) = external_ref {
            if Self::validate_external_ref(reference).is_err() {
                return Some(InsuranceError::InvalidExternalRef);
            }
        }
        if monthly_premium <= 0 {
            return Some(InsuranceError::MonthlyPremiumTooLow);
        }
        if monthly_premium > MAX_MONTHLY_PREMIUM {
            return Some(InsuranceError::MonthlyPremiumTooHigh);
        }
        if coverage_amount <= 0 {
            return Some(InsuranceError::CoverageAmountTooLow);
        }
        if coverage_amount > MAX_COVERAGE_AMOUNT {
            return Some(InsuranceError::CoverageAmountTooHigh);
        }
        let active_count = self.owner_active_count(owner);
        if active_count >= MAX_POLICIES_PER_OWNER {
            return Some(InsuranceError::PolicyLimitExceeded);
        }
        if let Some(reference) = external_ref {
            if self.ext_idx_get(owner, reference).is_some() {
                return Some(InsuranceError::DuplicateExternalRef);
            }
        }
        None
    }

    /// Appending a policy whose id exceeds every stored id adds it to the map.
    pub proof fn lemma_push_policy(pre: Seq<InsurancePolicy>, post: &Insurance, p: InsurancePolicy)
        requires
            post.policies@ == pre.push(p),
            forall|i: int| 0 <= i < pre.len() ==> #[trigger] pre[i].id < p.id,
            forall|i: int, j: int| 0 <= i < j < pre.len() ==> #[trigger] pre[i].id < #[trigger] pre[j].id,
        ensures
            forall|i: int, j: int|
                0 <= i < j < post.policies.len() ==> #[trigger] post.policies@[i].id < #[trigger] post.policies@[j].id,
            forall|id: u32| #[trigger]
                post.policy_map().dom().contains(id) == (id == p.id || exists|i: int|
                    0 <= i < pre.len() && pre[i].id == id),
            post.policy_map()[p.id] == p@,
            forall|i: int| 0 <= i < pre.len() ==> post.policy_map()[#[trigger] pre[i].id] == pre[i]@,
    {
        let n = pre.len() as int;
        assert(post.policies@[n] == p);
        assert forall|i: int, j: int|
            0 <= i < j < post.policies.len() implies #[trigger] post.policies@[i].id
            < #[trigger] post.policies@[j].id by {
            if j < n {
                assert(pre[i].id < pre[j].id);
            }
        }
        assert(post.has_policy(p.id));
        let k = post.slot_of(p.id);
        if k < n {
            assert(pre[k].id < p.id);
        }
        assert forall|i: int| 0 <= i < pre.len() implies post.policy_map()[#[trigger] pre[i].id] == pre[i]@ by {
            assert(post.policies@[i] == pre[i]);
            assert(post.has_policy(pre[i].id));
            let j = post.slot_of(pre[i].id);
            if j < i {
                assert(pre[j].id < pre[i].id);
            }
            if i < j && j < n {
                assert(pre[i].id < pre[j].id);
            }
            if j == n {
                assert(pre[i].id < p.id);
            }
        }
        assert forall|id: u32| #[trigger]
            post.policy_map().dom().contains(id) == (id == p.id || exists|i: int|
                0 <= i < pre.len() && pre[i].id == id) by {
            if post.has_policy(id) {
                let j = post.slot_of(id);
                if j < n {
                    assert(pre[j].id == id);
                }
            }
            if exists|i: int| 0 <= i < pre.len() && pre[i].id == id {
                let i = choose|i: int| 0 <= i < pre.len() && pre[i].id == id;
                assert(post.policies@[i].id == id);
            }
        }
    }

    /// Creates a policy for `owner` at ledger time `now`; its first premium
    /// falls due `PREMIUM_PERIOD_SECS` later. Refused as `create_refusal`
    /// says, changing nothing; otherwise the policy gets the next id, is
    /// listed for its owner, and its external reference is indexed.
    pub fn create_policy(
        &mut self,
        owner: &Address,
        name: Vec<u8>,
        coverage_type: CoverageType,
        monthly_premium: i128,
        coverage_amount: i128,
        external_ref: Option<Vec<u8>>,
        now: u64,
    ) -> (r: Result<u32, InsuranceError>)
        requires
            old(self).wf(),
            old(self).next_id < u32::MAX,
            old(self).create_refusal(owner@, monthly_premium, coverage_amount, opt_text(external_ref)) is None
                ==> now + PREMIUM_PERIOD_SECS <= u64::MAX,
        ensures
            final(self).wf(),
            final(self).pause_admin == old(self).pause_admin,
            match old(self).create_refusal(owner@, monthly_premium, coverage_amount, opt_text(external_ref)) {
                Some(e) => r == Err::<u32, InsuranceError>(e) && *final(self) == *old(self),
                None => {
                    let id = (old(self).next_id + 1) as u32;
                    &&& r == Ok::<u32, InsuranceError>(id)
                    &&& final(self).next_id == id
                    &&& final(self).policy_map() == old(self).policy_map().insert(
                        id,
                        PolicyView {
                            id,
                            owner: owner@,
                            name: name@,
                            external_ref: opt_text(external_ref),
                            coverage_type,
                            monthly_premium,
                            coverage_amount,
                            active: true,
                            next_payment_date: (now + PREMIUM_PERIOD_SECS) as u64,
                            tags: Seq::empty(),
                        },
                    )
                    &&& final(self).ids_of(owner@) == old(self).ids_of(owner@).push(id)
                    &&& forall|o: Seq<u8>| o != owner@ ==> #[trigger] final(self).ids_of(o) == old(self).ids_of(o)
                    &&& forall|o: Seq<u8>, x: Seq<u8>| #[trigger]
                        final(self).ref_holder(o, x) == if external_ref is Some && o == owner@ && x
                            == external_ref->Some_0@ {
                            Some(id)
                        } else {
                            old(self).ref_holder(o, x)
                        }
                },
            },
    {
        match self.creation_refusal(owner, monthly_premium, coverage_amount, &external_ref) {
            Some(e) => {
                return Err(e);
            },
            None => {},
        }
        let id = self.next_id + 1;
        let ghost pre = *self;
        let policy = InsurancePolicy {
            id,
            owner: owner.duplicate(),
            name,
            external_ref: match &external_ref {
                Some(t) => Some(bytes_copy(t)),
                None => None,
            },
            coverage_type,
            monthly_premium,
            coverage_amount,
            active: true,
            next_payment_date: now + PREMIUM_PERIOD_SECS,
            tags: Vec::new(),
        };
        let ghost pv = policy;
        assert(texts(pv.tags@) =~= Seq::<Seq<u8>>::empty());
        self.policies.push(policy);
        proof {
            Self::lemma_push_policy(pre.policies@, self, pv);
            lemma_count_push(pre.policies@, pv, owner@);
            assert forall|o: Seq<u8>| o != owner@ implies #[trigger] count_active(self.policies@, o) == count_active(
                pre.policies@,
                o,
            ) by {
                lemma_count_push(pre.policies@, pv, o);
            }
        }
        let mut ids = match self.owner_index.remove(&owner.bytes) {
            Some(v) => v,
            None => Vec::new(),
        };
        let ghost prior_ids = ids@;
        assert(prior_ids == pre.ids_of(owner@));
        ids.push(id);
        self.owner_index.set(bytes_copy(&owner.bytes), ids);
        let ghost before_idx = *self;
        assert(before_idx.ext_ref_index == pre.ext_ref_index);
        if let Some(reference) = &external_ref {
            self.ext_idx_insert(owner, reference, id);
        }
        let ghost after_idx = *self;
        self.next_id = id;
        proof {
            assert forall|o: Seq<u8>, x: Seq<u8>| #[trigger]
                self.ref_holder(o, x) == if external_ref is Some && o == owner@ && x == external_ref->Some_0@ {
                    Some(id)
                } else {
                    pre.ref_holder(o, x)
                } by {
                assert(self.ref_holder(o, x) == after_idx.ref_holder(o, x));
                assert(before_idx.ref_holder(o, x) == pre.ref_holder(o, x));
            }
            let view = pv@;
            assert(self.policy_map() =~= pre.policy_map().insert(id, view)) by {
                assert forall|x: u32| #[trigger] self.policy_map().dom().contains(x) == pre.policy_map().insert(
                    id,
                    view,
                ).dom().contains(x) by {
                    if pre.has_policy(x) {
                        let i = pre.slot_of(x);
                        assert(pre.policies@[i].id == x);
                    }
                    if exists|i: int| 0 <= i < pre.policies.len() && pre.policies@[i].id == x {
                        let i = choose|i: int| 0 <= i < pre.policies.len() && pre.policies@[i].id == x;
                        assert(pre.has_policy(x));
                    }
                }
                assert forall|x: u32| #[trigger] self.policy_map().dom().contains(x) implies self.policy_map()[x]
                    == pre.policy_map().insert(id, view)[x] by {
                    if x != id {
                        let i = pre.slot_of(x);
                        assert(pre.policies@[i].id == x);
                        pre.lemma_slot(i);
                    }
                }
            }
            assert forall|o: Seq<u8>| o != owner@ implies #[trigger] self.ids_of(o) == pre.ids_of(o) by {}
            assert(self.ids_of(owner@) =~= pre.ids_of(owner@).push(id));
            // id lists ascend and stay within the ids handed out
            assert forall|o: Seq<u8>| #[trigger] self.owner_index@.dom().contains(o) implies {
                let ids = self.owner_index@[o]@;
                &&& forall|a: int, b: int| 0 <= a < b < ids.len() ==> #[trigger] ids[a] < #[trigger] ids[b]
                &&& forall|a: int| 0 <= a < ids.len() ==> #[trigger] ids[a] <= self.next_id
            } by {
                let ids = self.owner_index@[o]@;
                if o == owner@ {
                    assert(ids == prior_ids.push(id));
                    if pre.owner_index@.dom().contains(o) {
                        assert forall|a: int| 0 <= a < prior_ids.len() implies #[trigger] prior_ids[a] <= pre.next_id by {
                            assert(prior_ids == pre.owner_index@[o]@);
                        }
                    }
                    assert forall|a: int, b: int| 0 <= a < b < ids.len() implies #[trigger] ids[a] < #[trigger] ids[b] by {
                        if b < prior_ids.len() {
                            assert(prior_ids == pre.owner_index@[o]@);
                        } else {
                            assert(ids[a] == prior_ids[a]);
                        }
                    }
                } else {
                    assert(pre.owner_index@.dom().contains(o));
                    assert(ids == pre.owner_index@[o]@);
                }
            }
            // the owner index and the policies agree
            assert forall|o: Seq<u8>, a: int|
                0 <= a < self.ids_of(o).len() && self.policy_map().dom().contains(
                    #[trigger] self.ids_of(o)[a],
                ) implies self.policy_map()[self.ids_of(o)[a]].owner == o by {
                let x = self.ids_of(o)[a];
                if o == owner@ && a == prior_ids.len() {
                    assert(x == id);
                } else {
                    assert(a < pre.ids_of(o).len());
                    assert(x == pre.ids_of(o)[a]);
                    lemma_fresh_id(pre, o, x, a);
                    assert(x != id);
                }
            }
            assert forall|x: u32| #[trigger] self.policy_map().dom().contains(x) implies self.ids_of(
                self.policy_map()[x].owner,
            ).contains(x) by {
                if x == id {
                    assert(self.ids_of(owner@)[prior_ids.len() as int] == id);
                } else {
                    let o = pre.policy_map()[x].owner;
                    assert(pre.ids_of(o).contains(x));
                    let w = choose|w: int| 0 <= w < pre.ids_of(o).len() && pre.ids_of(o)[w] == x;
                    if o == owner@ {
                        assert(self.ids_of(o)[w] == x);
                    }
                }
            }
            // every index entry names an active policy holding that reference
            assert forall|o: Seq<u8>, x: Seq<u8>| #[trigger] self.ref_holder(o, x) is Some implies {
                let hid = self.ref_holder(o, x)->Some_0;
                &&& self.policy_map().dom().contains(hid)
                &&& self.policy_map()[hid].active
                &&& self.policy_map()[hid].owner == o
                &&& self.policy_map()[hid].external_ref == Some(x)
            } by {
                if !(external_ref is Some && o == owner@ && x == external_ref->Some_0@) {
                    assert(pre.ref_holder(o, x) is Some);
                    let hid = pre.ref_holder(o, x)->Some_0;
                    assert(pre.policy_map().dom().contains(hid));
                    let i = pre.slot_of(hid);
                    assert(pre.policies@[i].id == hid);
                    assert(hid <= pre.next_id);
                }
            }
            // the index stays complete
            {
                assert forall|x: u32| #[trigger]
                    self.policy_map().dom().contains(x) && self.policy_map()[x].active
                        && self.policy_map()[x].external_ref is Some implies self.ref_holder(
                        self.policy_map()[x].owner,
                        self.policy_map()[x].external_ref->Some_0,
                    ) == Some(x) by {
                    if x != id {
                        let pvx = pre.policy_map()[x];
                        assert(pre.ref_holder(pvx.owner, pvx.external_ref->Some_0) == Some(x));
                        if external_ref is Some && pvx.owner == owner@ && pvx.external_ref->Some_0
                            == external_ref->Some_0@ {
                            assert(false);
                        }
                    }
                }
            }
        }
        Ok(id)
    }

    /// The index after the entry for (`owner`, `old_ref`) is dropped and
    /// `new_ref`, when there is one, is made to name policy `id`.
    pub open spec fn reindexed(
        &self,
        owner: Seq<u8>,
        old_ref: Option<Seq<u8>>,
        new_ref: Option<Seq<u8>>,
        id: u32,
        o: Seq<u8>,
        x: Seq<u8>,
    ) -> Option<u32> {
        if new_ref is Some && o == owner && x == new_ref->Some_0 {
            Some(id)
        } else if old_ref is Some && o == owner && x == old_ref->Some_0 {
            None
        } else {
            self.ref_holder(o, x)
        }
    }

    /// Why changing policy `policy_id`'s external reference to `new_ref` at
    /// `caller`'s request would be refused, in the order checked.
    pub open spec fn set_ref_refusal(&self, caller: Seq<u8>, policy_id: u32, new_ref: Option<Seq<u8>>) -> Option<
        InsuranceError,
    > {
        let m = self.policy_map();
        if !m.dom().contains(policy_id) {
            Some(InsuranceError::PolicyNotFound)
        } else if m[policy_id].owner != caller {
            Some(InsuranceError::Unauthorized)
        } else if !m[policy_id].active {
            Some(InsuranceError::PolicyInactive)
        } else if new_ref == m[policy_id].external_ref {
            None
        } else if new_ref is Some && !(0 < new_ref->Some_0.len() <= MAX_EXTERNAL_REF_LEN) {
            Some(InsuranceError::InvalidExternalRef)
        } else if new_ref is Some && self.ref_holder(caller, new_ref->Some_0) is Some && self.ref_holder(
            caller,
            new_ref->Some_0,
        ) != Some(policy_id) {
            Some(InsuranceError::DuplicateExternalRef)
        } else {
            None
        }
    }

    /// Changes the external reference of an active policy at its owner's
    /// request, and re-indexes it. Setting the reference it already has
    /// succeeds and changes nothing. A change is announced at `now`.
    pub fn try_set_external_ref(
        &mut self,
        caller: &Address,
        policy_id: u32,
        new_ref: Option<Vec<u8>>,
        now: u64,
        events: &mut Vec<InsuranceEvent>,
    ) -> (r: Result<bool, InsuranceError>)
        requires
            old(self).wf(),
        ensures
            final(self).wf(),
            match old(self).set_ref_refusal(caller@, policy_id, opt_text(new_ref)) {
                Some(e) => r == Err::<bool, InsuranceError>(e) && *final(self) == *old(self) && final(events)@
                    == old(events)@,
                None => r == Ok::<bool, InsuranceError>(true),
            },
            r is Ok && opt_text(new_ref) == old(self).policy_map()[policy_id].external_ref ==> *final(self)
                == *old(self) && final(events)@ == old(events)@,
            r is Ok && opt_text(new_ref) != old(self).policy_map()[policy_id].external_ref ==> {
                let p = old(self).policy_map()[policy_id];
                &&& final(self).policy_map() == old(self).policy_map().insert(
                    policy_id,
                    PolicyView { external_ref: opt_text(new_ref), ..p },
                )
                &&& forall|o: Seq<u8>, x: Seq<u8>| #[trigger]
                    final(self).ref_holder(o, x) == old(self).reindexed(
                        caller@,
                        p.external_ref,
                        opt_text(new_ref),
                        policy_id,
                        o,
                        x,
                    )
                &&& final(self).owner_index == old(self).owner_index
                &&& final(self).next_id == old(self).next_id
                &&& final(self).pause_admin == old(self).pause_admin
                &&& insurance_event_views(final(events)@) == insurance_event_views(old(events)@).push(
                    InsuranceEventView::ExternalRefUpdated {
                        policy_id,
                        owner: caller@,
                        old_external_ref: p.external_ref,
                        new_external_ref: opt_text(new_ref),
                        timestamp: now,
                    },
                )
            },
    {
        let i = match self.find_policy(policy_id) {
            Some(i) => i,
            None => {
                return Err(InsuranceError::PolicyNotFound);
            },
        };
        if !self.policies[i].owner.same(caller) {
            return Err(InsuranceError::Unauthorized);
        }
        if !self.policies[i].active {
            return Err(InsuranceError::PolicyInactive);
        }
        if opt_bytes_eq(&new_ref, &self.policies[i].external_ref) {
            return Ok(true);
        }
        if let Some(reference) = &new_ref {
            Self::validate_external_ref(reference)?;
        }
        if let Some(reference) = &new_ref {
            if let Some(existing_id) = self.ext_idx_get(&self.policies[i].owner, reference) {
                if existing_id != policy_id {
                    return Err(InsuranceError::DuplicateExternalRef);
                }
            }
        }
        let ghost pre = *self;
        let ghost pv = self.policies@[i as int];
        let owner = self.policies[i].owner.duplicate();
        let old_ref = opt_bytes_copy(&self.policies[i].external_ref);
        if let Some(reference) = &old_ref {
            self.ext_idx_remove(&owner, reference);
        }
        let ghost mid = *self;
        if let Some(reference) = &new_ref {
            self.ext_idx_insert(&owner, reference, policy_id);
        }
        let ghost post_idx = *self;
        let stored = opt_bytes_copy(&new_ref);
        self.policies[i].external_ref = stored;
        proof {
            let np = self.policies@[i as int];
            assert(self.policies@ == pre.policies@.update(i as int, np));
            lemma_map_update(pre.policies@, i as int, np);
            assert(np@ == PolicyView { external_ref: opt_text(new_ref), ..pv@ });
            assert forall|o: Seq<u8>, x: Seq<u8>| #[trigger]
                self.ref_holder(o, x) == pre.reindexed(caller@, pv@.external_ref, opt_text(new_ref), policy_id, o, x) by {
                assert(self.ref_holder(o, x) == post_idx.ref_holder(o, x));
                if old_ref is None {
                    assert(mid.ref_holder(o, x) == pre.ref_holder(o, x));
                }
                if new_ref is None {
                    assert(post_idx.ref_holder(o, x) == mid.ref_holder(o, x));
                }
            }
            assert forall|o: Seq<u8>| #[trigger] count_active(self.policies@, o) <= MAX_POLICIES_PER_OWNER by {
                lemma_count_update(pre.policies@, i as int, np, o);
            }
            assert forall|k: int| 0 <= k < self.policies.len() implies 0 < #[trigger] self.policies@[k].id <= self.next_id
                && 0 < self.policies@[k].monthly_premium <= MAX_MONTHLY_PREMIUM
                && 0 < self.policies@[k].coverage_amount <= MAX_COVERAGE_AMOUNT by {
                assert(pre.policies@[k].id == self.policies@[k].id);
                assert(pre.policies@[k].monthly_premium == self.policies@[k].monthly_premium);
                assert(pre.policies@[k].coverage_amount == self.policies@[k].coverage_amount);
                assert(0 < pre.policies@[k].id <= pre.next_id);
                assert(0 < pre.policies@[k].monthly_premium <= MAX_MONTHLY_PREMIUM);
                assert(0 < pre.policies@[k].coverage_amount <= MAX_COVERAGE_AMOUNT);
            }
            assert forall|o: Seq<u8>, x: Seq<u8>| #[trigger] self.ref_holder(o, x) is Some implies {
                let hid = self.ref_holder(o, x)->Some_0;
                &&& self.policy_map().dom().contains(hid)
                &&& self.policy_map()[hid].active
                &&& self.policy_map()[hid].owner == o
                &&& self.policy_map()[hid].external_ref == Some(x)
            } by {
                let hid = self.ref_holder(o, x)->Some_0;
                if !(new_ref is Some && o == caller@ && x == new_ref->Some_0@) {
                    assert(pre.ref_holder(o, x) == Some(hid));
                    if hid == policy_id {
                        assert(pre.policy_map()[hid].external_ref == Some(x));
                        assert(pv@.external_ref == Some(x));
                        assert(o == caller@);
                    }
                }
            }
            lemma_owners_listed_kept(&pre, &*self);
            // the index stays complete
            {
                assert forall|x: u32| #[trigger]
                    self.policy_map().dom().contains(x) && self.policy_map()[x].active
                        && self.policy_map()[x].external_ref is Some implies self.ref_holder(
                        self.policy_map()[x].owner,
                        self.policy_map()[x].external_ref->Some_0,
                    ) == Some(x) by {
                    if x != policy_id {
                        let q = pre.policy_map()[x];
                        assert(pre.ref_holder(q.owner, q.external_ref->Some_0) == Some(x));
                        if pv@.external_ref is Some && q.owner == caller@ && q.external_ref->Some_0
                            == pv@.external_ref->Some_0 {
                            assert(pre.ref_holder(caller@, pv@.external_ref->Some_0) == Some(policy_id));
                        }
                    }
                }
            }
        }
        let ghost before = events@;
        events.push(
            InsuranceEvent::ExternalRefUpdated(
                ExternalRefUpdatedEvent {
                    policy_id,
                    owner: caller.duplicate(),
                    old_external_ref: old_ref,
                    new_external_ref: new_ref,
                    timestamp: now,
                },
            ),
        );
        assert(insurance_event_views(events@) =~= insurance_event_views(before).push(
            InsuranceEventView::ExternalRefUpdated {
                policy_id,
                owner: caller@,
                old_external_ref: pv@.external_ref,
                new_external_ref: opt_text(new_ref),
                timestamp: now,
            },
        ));
        Ok(true)
    }

    /// Deactivates a policy at its owner's request, keeping it stored, and
    /// frees the external reference it held while active (the reference of
    /// an inactive policy may since have been taken by another policy, and
    /// stays with it). Answers `Ok(false)` when there is no such policy or
    /// the caller does not own it; deactivating an inactive policy changes
    /// nothing and answers `Ok(true)`.
    pub fn deactivate_policy(&mut self, caller: &Address, policy_id: u32) -> (r: Result<bool, InsuranceError>)
        requires
            old(self).wf(),
        ensures
            final(self).wf(),
            r is Ok,
            !old(self).policy_map().dom().contains(policy_id) || old(self).policy_map()[policy_id].owner != caller@
                ==> r == Ok::<bool, InsuranceError>(false) && *final(self) == *old(self),
            old(self).policy_map().dom().contains(policy_id) && old(self).policy_map()[policy_id].owner == caller@
                ==> {
                let p = old(self).policy_map()[policy_id];
                &&& r == Ok::<bool, InsuranceError>(true)
                &&& final(self).policy_map() == old(self).policy_map().insert(
                    policy_id,
                    PolicyView { active: false, ..p },
                )
                &&& forall|o: Seq<u8>, x: Seq<u8>| #[trigger]
                    final(self).ref_holder(o, x) == if p.active {
                        old(self).reindexed(caller@, p.external_ref, None, policy_id, o, x)
                    } else {
                        old(self).ref_holder(o, x)
                    }
                &&& final(self).owner_index == old(self).owner_index
                &&& final(self).next_id == old(self).next_id
                &&& final(self).pause_admin == old(self).pause_admin
            },
    {
        let i = match self.find_policy(policy_id) {
            Some(i) => i,
            None => {
                return Ok(false);
            },
        };
        if !self.policies[i].owner.same(caller) {
            return Ok(false);
        }
        let ghost pre = *self;
        let ghost pv = self.policies@[i as int];
        let was_active = self.policies[i].active;
        self.policies[i].active = false;
        let ghost mid = *self;
        if was_active {
            let owner = self.policies[i].owner.duplicate();
            let reference = opt_bytes_copy(&self.policies[i].external_ref);
            if let Some(t) = &reference {
                self.ext_idx_remove(&owner, t);
            }
        }
        proof {
            let np = self.policies@[i as int];
            assert(self.policies@ == pre.policies@.update(i as int, np));
            lemma_map_update(pre.policies@, i as int, np);
            assert(np@ == PolicyView { active: false, ..pv@ });
            assert forall|o: Seq<u8>, x: Seq<u8>| #[trigger]
                self.ref_holder(o, x) == if pv@.active {
                    pre.reindexed(caller@, pv@.external_ref, None, policy_id, o, x)
                } else {
                    pre.ref_holder(o, x)
                } by {
                assert(mid.ref_holder(o, x) == pre.ref_holder(o, x));
            }
            assert forall|o: Seq<u8>| #[trigger] count_active(self.policies@, o) <= MAX_POLICIES_PER_OWNER by {
                lemma_count_update(pre.policies@, i as int, np, o);
            }
            assert forall|k: int| 0 <= k < self.policies.len() implies 0 < #[trigger] self.policies@[k].id <= self.next_id
                && 0 < self.policies@[k].monthly_premium <= MAX_MONTHLY_PREMIUM
                && 0 < self.policies@[k].coverage_amount <= MAX_COVERAGE_AMOUNT by {
                assert(pre.policies@[k].id == self.policies@[k].id);
                assert(pre.policies@[k].monthly_premium == self.policies@[k].monthly_premium);
                assert(pre.policies@[k].coverage_amount == self.policies@[k].coverage_amount);
                assert(0 < pre.policies@[k].id <= pre.next_id);
                assert(0 < pre.policies@[k].monthly_premium <= MAX_MONTHLY_PREMIUM);
                assert(0 < pre.policies@[k].coverage_amount <= MAX_COVERAGE_AMOUNT);
                assert(self.next_id == pre.next_id);
            }
            assert forall|o: Seq<u8>, x: Seq<u8>| #[trigger] self.ref_holder(o, x) is Some implies {
                let hid = self.ref_holder(o, x)->Some_0;
                &&& self.policy_map().dom().contains(hid)
                &&& self.policy_map()[hid].active
                &&& self.policy_map()[hid].owner == o
                &&& self.policy_map()[hid].external_ref == Some(x)
            } by {
                let hid = self.ref_holder(o, x)->Some_0;
                assert(pre.ref_holder(o, x) == Some(hid));
                if hid == policy_id {
                    assert(pv@.external_ref == Some(x));
                }
            }
            lemma_owners_listed_kept(&pre, &*self);
            // the index stays complete
            {
                assert forall|x: u32| #[trigger]
                    self.policy_map().dom().contains(x) && self.policy_map()[x].active
                        && self.policy_map()[x].external_ref is Some implies self.ref_holder(
                        self.policy_map()[x].owner,
                        self.policy_map()[x].external_ref->Some_0,
                    ) == Some(x) by {
                    let q = pre.policy_map()[x];
                    assert(pre.ref_holder(q.owner, q.external_ref->Some_0) == Some(x));
                    if pv@.external_ref is Some && q.owner == caller@ && q.external_ref->Some_0
                        == pv@.external_ref->Some_0 {
                        if pv@.active {
                            assert(pre.ref_holder(caller@, pv@.external_ref->Some_0) == Some(policy_id));
                        }
                    }
                }
            }
        }
        Ok(true)
    }

    /// Removes a policy at its owner's request and, when it was active, frees
    /// its external reference; its id stays in the owner's list. Answers
    /// `Ok(false)` when there is no such policy, and `Unauthorized` to anyone
    /// but the owner.
    #[verifier::spinoff_prover]
    pub fn try_archive_policy(&mut self, caller: &Address, policy_id: u32) -> (r: Result<bool, InsuranceError>)
        requires
            old(self).wf(),
        ensures
            final(self).wf(),
            !old(self).policy_map().dom().contains(policy_id) ==> r == Ok::<bool, InsuranceError>(false)
                && *final(self) == *old(self),
            old(self).policy_map().dom().contains(policy_id) && old(self).policy_map()[policy_id].owner != caller@
                ==> r == Err::<bool, InsuranceError>(InsuranceError::Unauthorized) && *final(self) == *old(self),
            old(self).policy_map().dom().contains(policy_id) && old(self).policy_map()[policy_id].owner == caller@
                ==> {
                let p = old(self).policy_map()[policy_id];
                &&& r == Ok::<bool, InsuranceError>(true)
                &&& final(self).policy_map() == old(self).policy_map().remove(policy_id)
                &&& forall|o: Seq<u8>, x: Seq<u8>| #[trigger]
                    final(self).ref_holder(o, x) == if p.active {
                        old(self).reindexed(caller@, p.external_ref, None, policy_id, o, x)
                    } else {
                        old(self).ref_holder(o, x)
                    }
                &&& final(self).owner_index == old(self).owner_index
                &&& final(self).next_id == old(self).next_id
                &&& final(self).pause_admin == old(self).pause_admin
            },
    {
        let i = match self.find_policy(policy_id) {
            Some(i) => i,
            None => {
                return Ok(false);
            },
        };
        if !self.policies[i].owner.same(caller) {
            return Err(InsuranceError::Unauthorized);
        }
        let ghost pre = *self;
        let ghost pv = self.policies@[i as int];
        if self.policies[i].active {
            let owner = self.policies[i].owner.duplicate();
            let reference = opt_bytes_copy(&self.policies[i].external_ref);
            if let Some(t) = &reference {
                self.ext_idx_remove(&owner, t);
            }
        }
        let ghost mid = *self;
        self.policies.remove(i);
        proof {
            assert(self.policies@ == pre.policies@.remove(i as int));
            lemma_map_remove(pre.policies@, i as int);
            assert forall|o: Seq<u8>, x: Seq<u8>| #[trigger]
                self.ref_holder(o, x) == if pv@.active {
                    pre.reindexed(caller@, pv@.external_ref, None, policy_id, o, x)
                } else {
                    pre.ref_holder(o, x)
                } by {
                assert(self.ref_holder(o, x) == mid.ref_holder(o, x));
                if !pv@.active || pv@.external_ref is None {
                    assert(mid.ref_holder(o, x) == pre.ref_holder(o, x));
                }
            }
            assert forall|o: Seq<u8>| #[trigger] count_active(self.policies@, o) <= MAX_POLICIES_PER_OWNER by {
                lemma_count_remove(pre.policies@, i as int, o);
            }
            assert forall|k: int| 0 <= k < self.policies.len() implies 0 < #[trigger] self.policies@[k].id <= self.next_id
                && 0 < self.policies@[k].monthly_premium <= MAX_MONTHLY_PREMIUM
                && 0 < self.policies@[k].coverage_amount <= MAX_COVERAGE_AMOUNT by {
                let k1 = if k < i {
                    k
                } else {
                    k + 1
                };
                pre.policies@.remove_ensures(i as int);
                assert(self.policies@[k] == pre.policies@[k1]);
                assert(0 < pre.policies@[k1].id <= pre.next_id);
                assert(0 < pre.policies@[k1].monthly_premium <= MAX_MONTHLY_PREMIUM);
                assert(0 < pre.policies@[k1].coverage_amount <= MAX_COVERAGE_AMOUNT);
                assert(self.next_id == pre.next_id);
            }
            assert forall|o: Seq<u8>, x: Seq<u8>| #[trigger] self.ref_holder(o, x) is Some implies {
                let hid = self.ref_holder(o, x)->Some_0;
                &&& self.policy_map().dom().contains(hid)
                &&& self.policy_map()[hid].active
                &&& self.policy_map()[hid].owner == o
                &&& self.policy_map()[hid].external_ref == Some(x)
            } by {
                let hid = self.ref_holder(o, x)->Some_0;
                assert(pre.ref_holder(o, x) == Some(hid));
                if hid == policy_id {
                    assert(pv@.external_ref == Some(x));
                }
            }
            lemma_owners_listed_kept(&pre, &*self);
            // the index stays complete
            {
                assert forall|x: u32| #[trigger]
                    self.policy_map().dom().contains(x) && self.policy_map()[x].active
                        && self.policy_map()[x].external_ref is Some implies self.ref_holder(
                        self.policy_map()[x].owner,
                        self.policy_map()[x].external_ref->Some_0,
                    ) == Some(x) by {
                    let q = pre.policy_map()[x];
                    assert(pre.ref_holder(q.owner, q.external_ref->Some_0) == Some(x));
                    if pv@.external_ref is Some && q.owner == caller@ && q.external_ref->Some_0
                        == pv@.external_ref->Some_0 {
                        if pv@.active {
                            assert(pre.ref_holder(caller@, pv@.external_ref->Some_0) == Some(policy_id));
                        }
                    }
                }
            }
        }
        Ok(true)
    }

    /// Records a premium payment at ledger time `now`: the next payment falls
    /// due `PREMIUM_PERIOD_SECS` later. Only the owner of an active policy
    /// can pay; otherwise nothing changes and `false` is answered.
    pub fn pay_premium(&mut self, caller: &Address, policy_id: u32, now: u64) -> (r: bool)
        requires
            old(self).wf(),
            pay_eligible(old(self).policy_map(), caller@, policy_id) ==> now + PREMIUM_PERIOD_SECS <= u64::MAX,
        ensures
            final(self).wf(),
            r == pay_eligible(old(self).policy_map(), caller@, policy_id),
            !r ==> *final(self) == *old(self),
            r ==> final(self).policy_map() == old(self).policy_map().insert(
                policy_id,
                PolicyView {
                    next_payment_date: (now + PREMIUM_PERIOD_SECS) as u64,
                    ..old(self).policy_map()[policy_id]
                },
            ),
            final(self).owner_index == old(self).owner_index,
            final(self).ext_ref_index == old(self).ext_ref_index,
            final(self).next_id == old(self).next_id,
            final(self).pause_admin == old(self).pause_admin,
    {
        let i = match self.find_policy(policy_id) {
            Some(i) => i,
            None => {
                return false;
            },
        };
        if !self.policies[i].owner.same(caller) || !self.policies[i].active {
            return false;
        }
        self.set_due_date(i, now + PREMIUM_PERIOD_SECS);
        true
    }

    /// Sets the next payment date of the policy in slot `i`.
    fn set_due_date(&mut self, i: usize, due: u64)
        requires
            old(self).wf(),
            i < old(self).policies.len(),
        ensures
            final(self).wf(),
            final(self).policies@ == old(self).policies@.update(
                i as int,
                InsurancePolicy { next_payment_date: due, ..old(self).policies@[i as int] },
            ),
            final(self).policy_map() == old(self).policy_map().insert(
                old(self).policies@[i as int].id,
                PolicyView { next_payment_date: due, ..old(self).policy_map()[old(self).policies@[i as int].id] },
            ),
            final(self).owner_index == old(self).owner_index,
            final(self).ext_ref_index == old(self).ext_ref_index,
            final(self).next_id == old(self).next_id,
            final(self).pause_admin == old(self).pause_admin,
    {
        let ghost pre = *self;
        let ghost pv = self.policies@[i as int];
        self.policies[i].next_payment_date = due;
        proof {
            let np = self.policies@[i as int];
            assert(self.policies@ =~= pre.policies@.update(i as int, np));
            lemma_map_update(pre.policies@, i as int, np);
            pre.lemma_slot(i as int);
            assert forall|o: Seq<u8>| #[trigger] count_active(self.policies@, o) <= MAX_POLICIES_PER_OWNER by {
                lemma_count_update(pre.policies@, i as int, np, o);
            }
            assert forall|k: int| 0 <= k < self.policies.len() implies 0 < #[trigger] self.policies@[k].id <= self.next_id
                && 0 < self.policies@[k].monthly_premium <= MAX_MONTHLY_PREMIUM
                && 0 < self.policies@[k].coverage_amount <= MAX_COVERAGE_AMOUNT by {
                assert(pre.policies@[k].id == self.policies@[k].id);
                assert(pre.policies@[k].monthly_premium == self.policies@[k].monthly_premium);
                assert(pre.policies@[k].coverage_amount == self.policies@[k].coverage_amount);
                assert(0 < pre.policies@[k].id <= pre.next_id);
                assert(0 < pre.policies@[k].monthly_premium <= MAX_MONTHLY_PREMIUM);
                assert(0 < pre.policies@[k].coverage_amount <= MAX_COVERAGE_AMOUNT);
            }
            assert forall|o: Seq<u8>, x: Seq<u8>| #[trigger] self.ref_holder(o, x) is Some implies {
                let hid = self.ref_holder(o, x)->Some_0;
                &&& self.policy_map().dom().contains(hid)
                &&& self.policy_map()[hid].active
                &&& self.policy_map()[hid].owner == o
                &&& self.policy_map()[hid].external_ref == Some(x)
            } by {
                assert(pre.ref_holder(o, x) == self.ref_holder(o, x));
            }
            lemma_owners_listed_kept(&pre, &*self);
            // the index stays complete
            {
                assert forall|x: u32| #[trigger]
                    self.policy_map().dom().contains(x) && self.policy_map()[x].active
                        && self.policy_map()[x].external_ref is Some implies self.ref_holder(
                        self.policy_map()[x].owner,
                        self.policy_map()[x].external_ref->Some_0,
                    ) == Some(x) by {
                    let q = pre.policy_map()[x];
                    assert(pre.ref_holder(q.owner, q.external_ref->Some_0) == Some(x));
                }
            }
        }
    }

    /// Pays the premiums of each listed policy that `caller` owns and that is
    /// active, at ledger time `now`; answers how many entries were paid
    /// (an id listed twice is paid twice).
    pub fn batch_pay_premiums(&mut self, caller: &Address, policy_ids: &Vec<u32>, now: u64) -> (count: u32)
        requires
            old(self).wf(),
            now + PREMIUM_PERIOD_SECS <= u64::MAX,
            policy_ids.len() <= u32::MAX,
        ensures
            final(self).wf(),
            count == count_payable(old(self).policy_map(), caller@, policy_ids@),
            final(self).policy_map() == paid_map(
                old(self).policy_map(),
                caller@,
                policy_ids@,
                (now + PREMIUM_PERIOD_SECS) as u64,
            ),
            final(self).owner_index == old(self).owner_index,
            final(self).ext_ref_index == old(self).ext_ref_index,
            final(self).next_id == old(self).next_id,
            final(self).pause_admin == old(self).pause_admin,
    {
        let ghost m0 = self.policy_map();
        let due = now + PREMIUM_PERIOD_SECS;
        let mut count: u32 = 0;
        let mut k: usize = 0;
        proof {
            assert(paid_map(m0, caller@, policy_ids@.subrange(0, 0), due) =~= m0);
        }
        while k < policy_ids.len()
            invariant
                self.wf(),
                k <= policy_ids.len(),
                policy_ids.len() <= u32::MAX,
                m0 == old(self).policy_map(),
                count == count_payable(m0, caller@, policy_ids@.subrange(0, k as int)),
                count <= k,
                self.policy_map() == paid_map(m0, caller@, policy_ids@.subrange(0, k as int), due),
                self.owner_index == old(self).owner_index,
                self.ext_ref_index == old(self).ext_ref_index,
                self.next_id == old(self).next_id,
                self.pause_admin == old(self).pause_admin,
            decreases policy_ids.len() - k,
        {
            let id = policy_ids[k];
            let ghost before = self.policy_map();
            let ghost done = policy_ids@.subrange(0, k as int);
            let ghost next = policy_ids@.subrange(0, k + 1);
            assert(next.drop_last() =~= done);
            assert(next.last() == id);
            assert forall|x: u32| #[trigger] next.contains(x) == (done.contains(x) || x == id) by {
                if next.contains(x) {
                    let j = choose|j: int| 0 <= j < next.len() && next[j] == x;
                    if j < k {
                        assert(done[j] == x);
                    }
                }
                if done.contains(x) {
                    let j = choose|j: int| 0 <= j < done.len() && done[j] == x;
                    assert(next[j] == x);
                }
                if x == id {
                    assert(next[k as int] == x);
                }
            }
            match self.find_policy(id) {
                Some(i) => {
                    if self.policies[i].owner.same(caller) && self.policies[i].active {
                        self.set_due_date(i, due);
                        count = count + 1;
                        proof {
                            assert(self.policy_map() =~= paid_map(m0, caller@, next, due));
                        }
                    } else {
                        proof {
                            assert(!pay_eligible(m0, caller@, id));
                            assert(self.policy_map() =~= paid_map(m0, caller@, next, due));
                        }
                    }
                },
                None => {
                    proof {
                        assert(!m0.dom().contains(id));
                        assert(self.policy_map() =~= paid_map(m0, caller@, next, due));
                    }
                },
            }
            k = k + 1;
        }
        proof {
            assert(policy_ids@.subrange(0, policy_ids.len() as int) =~= policy_ids@);
        }
        count
    }

    /// The sum of the monthly premiums of `owner`'s active policies.
    pub fn get_total_monthly_premium(&self, owner: &Address) -> (total: i128)
        requires
            self.wf(),
        ensures
            total == premium_total(self.policy_map(), self.ids_of(owner@)),
    {
        let ids: &Vec<u32> = match self.owner_index.get(&owner.bytes) {
            Some(v) => v,
            None => {
                return 0;
            },
        };
        let mut total: i128 = 0;
        let mut k: usize = 0;
        while k < ids.len()
            invariant
                self.wf(),
                k <= ids.len(),
                ids@ == self.ids_of(owner@),
                total == premium_total(self.policy_map(), ids@.subrange(0, k as int)),
                0 <= total <= k * MAX_MONTHLY_PREMIUM,
            decreases ids.len() - k,
        {
            let id = ids[k];
            let ghost next = ids@.subrange(0, k + 1);
            assert(next.drop_last() =~= ids@.subrange(0, k as int));
            assert(next.last() == id);
            match self.find_policy(id) {
                Some(i) => {
                    if self.policies[i].active {
                        let premium = self.policies[i].monthly_premium;
                        assert(0 < premium <= MAX_MONTHLY_PREMIUM);
                        assert(k * MAX_MONTHLY_PREMIUM <= 0xffff_ffff_ffff_ffff * MAX_MONTHLY_PREMIUM) by (nonlinear_arith)
                            requires
                                k <= 0xffff_ffff_ffff_ffff,
                        ;
                        total = total + premium;
                    }
                },
                None => {},
            }
            k = k + 1;
        }
        assert(ids@.subrange(0, ids.len() as int) =~= ids@);
        total
    }

    /// Stores the address allowed to pause the registry.
    pub fn set_pause_admin(&mut self, new_admin: Address) -> (r: bool)
        requires
            old(self).wf(),
        ensures
            final(self).wf(),
            r,
            final(self).pause_admin matches Some(a) && a@ == new_admin@,
            final(self).policies == old(self).policies,
            final(self).owner_index == old(self).owner_index,
            final(self).ext_ref_index == old(self).ext_ref_index,
            final(self).next_id == old(self).next_id,
    {
        let ghost pre = *self;
        self.pause_admin = Some(new_admin);
        assert forall|o: Seq<u8>, x: Seq<u8>| #[trigger] self.ref_holder(o, x) is Some implies {
            let hid = self.ref_holder(o, x)->Some_0;
            &&& self.policy_map().dom().contains(hid)
            &&& self.policy_map()[hid].active
            &&& self.policy_map()[hid].owner == o
            &&& self.policy_map()[hid].external_ref == Some(x)
        } by {
            assert(pre.ref_holder(o, x) == self.ref_holder(o, x));
        }
        proof {
            lemma_owners_listed_kept(&pre, &*self);
        }
        true
    }

    /// A page of `owner`'s active policies with ids above `cursor`, in the
    /// order of the owner's list, at most `clamp_limit(limit)` of them. The
    /// next cursor is the last id returned when the page is full, else zero.
    pub fn get_active_policies(&self, owner: &Address, cursor: u32, limit: u32) -> (page: PolicyPage)
        requires
            self.wf(),
        ensures
            ({
                let lim = Self::clamped(limit);
                let ids = page_ids(self.policy_map(), self.ids_of(owner@), cursor, lim);
                &&& policy_views(page.items@) == ids.map_values(|id: u32| self.policy_map()[id])
                &&& page.count == ids.len()
                &&& page.next_cursor == (if ids.len() < lim {
                    0
                } else {
                    ids.last()
                })
            }),
            forall|j: int| 0 <= j < page.items.len() ==> {
                &&& (#[trigger] page.items@[j])@.owner == owner@
                &&& page.items@[j].active
                &&& page.items@[j].id > cursor
            },
    {
        let lim = Self::clamp_limit(limit);
        let ghost m = self.policy_map();
        let empty: Vec<u32> = Vec::new();
        let ids: &Vec<u32> = match self.owner_index.get(&owner.bytes) {
            Some(v) => v,
            None => &empty,
        };
        assert(ids@ == self.ids_of(owner@));
        let mut items: Vec<InsurancePolicy> = Vec::new();
        let mut next_cursor: u32 = 0;
        let mut k: usize = 0;
        let ghost mut full = false;
        while k < ids.len()
            invariant_except_break
                !full,
                items@.len() < lim,
            invariant
                self.wf(),
                m == self.policy_map(),
                k <= ids.len(),
                lim == Self::clamped(limit),
                policy_views(items@) == eligible_after(m, ids@.subrange(0, k as int), cursor).map_values(
                    |id: u32| m[id],
                ),
                items@.len() > 0 ==> next_cursor == eligible_after(m, ids@.subrange(0, k as int), cursor).last(),
                full ==> items@.len() == lim,
                items@.len() <= lim,
            ensures
                policy_views(items@) == eligible_after(m, ids@.subrange(0, k as int), cursor).map_values(
                    |id: u32| m[id],
                ),
                items@.len() > 0 ==> next_cursor == eligible_after(m, ids@.subrange(0, k as int), cursor).last(),
                items@.len() <= lim,
                k < ids.len() ==> items@.len() == lim,
            decreases ids.len() - k,
        {
            let id = ids[k];
            let ghost done = ids@.subrange(0, k as int);
            let ghost next = ids@.subrange(0, k + 1);
            assert(next.drop_last() =~= done);
            assert(next.last() == id);
            if id <= cursor {
                k = k + 1;
                continue;
            }
            match self.find_policy(id) {
                Some(i) => {
                    if !self.policies[i].active {
                        k = k + 1;
                        continue;
                    }
                    let ghost before = items@;
                    items.push(self.policies[i].duplicate());
                    next_cursor = id;
                    proof {
                        assert(policy_views(items@) =~= policy_views(before).push(m[id]));
                        assert(eligible_after(m, next, cursor) == eligible_after(m, done, cursor).push(id));
                        assert(policy_views(items@) =~= eligible_after(m, next, cursor).map_values(
                            |id: u32| m[id],
                        ));
                    }
                    k = k + 1;
                    if items.len() >= lim as usize {
                        proof {
                            full = true;
                        }
                        break;
                    }
                },
                None => {
                    k = k + 1;
                },
            }
        }
        proof {
            let e = eligible_after(m, ids@, cursor);
            let ek = eligible_after(m, ids@.subrange(0, k as int), cursor);
            lemma_eligible_prefix(m, ids@, cursor, k as int);
            if k < ids.len() {
                assert(ek.len() == lim);
                assert(page_ids(m, ids@, cursor, lim) =~= ek);
            } else {
                assert(ids@.subrange(0, k as int) =~= ids@);
                assert(page_ids(m, ids@, cursor, lim) =~= ek);
            }
        }
        proof {
            let ids_v = self.ids_of(owner@);
            let pids = page_ids(m, ids_v, cursor, lim);
            lemma_eligible_members(m, ids_v, cursor);
            assert forall|j: int| 0 <= j < items.len() implies {
                &&& (#[trigger] items@[j])@.owner == owner@
                &&& items@[j].active
                &&& items@[j].id > cursor
            } by {
                let e = eligible_after(m, ids_v, cursor);
                assert(pids[j] == e[j]);
                assert(page_eligible(m, cursor, e[j]));
                let w = choose|w: int| 0 <= w < ids_v.len() && ids_v[w] == e[j];
                assert(policy_views(items@)[j] == items@[j]@);
                assert(items@[j]@ == m[e[j]]);
                assert(m[e[j]].id == e[j]) by {
                    let i = self.slot_of(e[j]);
                    self.lemma_slot(i);
                }
            }
        }
        let count = items.len() as u32;
        let out_cursor = if count < lim {
            0
        } else {
            next_cursor
        };
        PolicyPage { items, next_cursor: out_cursor, count }
    }

    /// Replaces the tags of the policy in slot `i`.
    fn set_tags(&mut self, i: usize, tags: Vec<Vec<u8>>)
        requires
            old(self).wf(),
            i < old(self).policies.len(),
        ensures
            final(self).wf(),
            final(self).policy_map() == old(self).policy_map().insert(
                old(self).policies@[i as int].id,
                PolicyView { tags: texts(tags@), ..old(self).policy_map()[old(self).policies@[i as int].id] },
            ),
            final(self).owner_index == old(self).owner_index,
            final(self).ext_ref_index == old(self).ext_ref_index,
            final(self).next_id == old(self).next_id,
            final(self).pause_admin == old(self).pause_admin,
    {
        let ghost pre = *self;
        self.policies[i].tags = tags;
        proof {
            let np = self.policies@[i as int];
            assert(self.policies@ =~= pre.policies@.update(i as int, np));
            lemma_map_update(pre.policies@, i as int, np);
            pre.lemma_slot(i as int);
            assert forall|o: Seq<u8>| #[trigger] count_active(self.policies@, o) <= MAX_POLICIES_PER_OWNER by {
                lemma_count_update(pre.policies@, i as int, np, o);
            }
            assert forall|k: int| 0 <= k < self.policies.len() implies 0 < #[trigger] self.policies@[k].id <= self.next_id
                && 0 < self.policies@[k].monthly_premium <= MAX_MONTHLY_PREMIUM
                && 0 < self.policies@[k].coverage_amount <= MAX_COVERAGE_AMOUNT by {
                assert(pre.policies@[k].id == self.policies@[k].id);
                assert(pre.policies@[k].monthly_premium == self.policies@[k].monthly_premium);
                assert(pre.policies@[k].coverage_amount == self.policies@[k].coverage_amount);
                assert(0 < pre.policies@[k].id <= pre.next_id);
                assert(0 < pre.policies@[k].monthly_premium <= MAX_MONTHLY_PREMIUM);
                assert(0 < pre.policies@[k].coverage_amount <= MAX_COVERAGE_AMOUNT);
            }
            assert forall|o: Seq<u8>, x: Seq<u8>| #[trigger] self.ref_holder(o, x) is Some implies {
                let hid = self.ref_holder(o, x)->Some_0;
                &&& self.policy_map().dom().contains(hid)
                &&& self.policy_map()[hid].active
                &&& self.policy_map()[hid].owner == o
                &&& self.policy_map()[hid].external_ref == Some(x)
            } by {
                assert(pre.ref_holder(o, x) == self.ref_holder(o, x));
            }
            lemma_owners_listed_kept(&pre, &*self);
            // the index stays complete
            {
                assert forall|x: u32| #[trigger]
                    self.policy_map().dom().contains(x) && self.policy_map()[x].active
                        && self.policy_map()[x].external_ref is Some implies self.ref_holder(
                        self.policy_map()[x].owner,
                        self.policy_map()[x].external_ref->Some_0,
                    ) == Some(x) by {
                    let q = pre.policy_map()[x];
                    assert(pre.ref_holder(q.owner, q.external_ref->Some_0) == Some(x));
                }
            }
        }
    }

    /// Why a tag change on policy `policy_id` at `caller`'s request would be
    /// refused, in the order checked.
    pub open spec fn tag_refusal(&self, caller: Seq<u8>, policy_id: u32, tags: Seq<Seq<u8>>) -> Option<
        InsuranceError,
    > {
        if !tags_valid(tags) {
            Some(InsuranceError::InvalidTagContent)
        } else if !self.policy_map().dom().contains(policy_id) {
            Some(InsuranceError::PolicyNotFound)
        } else if self.policy_map()[policy_id].owner != caller {
            Some(InsuranceError::Unauthorized)
        } else {
            None
        }
    }

    /// Adds tags, lowered, after a policy's tags, at its owner's request. The
    /// contract aborts the call on a refusal: a missing policy or another
    /// caller than the owner, besides an invalid tag.
    pub fn add_tags_to_policy(
        &mut self,
        caller: &Address,
        policy_id: u32,
        tags: &Vec<Vec<u8>>,
        events: &mut Vec<InsuranceEvent>,
    ) -> (r: Result<(), InsuranceError>)
        requires
            old(self).wf(),
        ensures
            final(self).wf(),
            match old(self).tag_refusal(caller@, policy_id, texts(tags@)) {
                Some(e) => r == Err::<(), InsuranceError>(e) && *final(self) == *old(self) && final(events)@
                    == old(events)@,
                None => {
                    let p = old(self).policy_map()[policy_id];
                    &&& r is Ok
                    &&& final(self).policy_map() == old(self).policy_map().insert(
                        policy_id,
                        PolicyView {
                            tags: p.tags + texts(tags@).map_values(|t: Seq<u8>| normalize_tag(t)),
                            ..p
                        },
                    )
                    &&& final(self).owner_index == old(self).owner_index
                    &&& final(self).ext_ref_index == old(self).ext_ref_index
                    &&& final(self).next_id == old(self).next_id
                    &&& insurance_event_views(final(events)@) == insurance_event_views(old(events)@).push(
                        InsuranceEventView::TagsAdded { policy_id, caller: caller@, tags: texts(tags@) },
                    )
                },
            },
    {
        let normalized = normalize_tags(tags)?;
        let i = match self.find_policy(policy_id) {
            Some(i) => i,
            None => {
                return Err(InsuranceError::PolicyNotFound);
            },
        };
        if !self.policies[i].owner.same(caller) {
            return Err(InsuranceError::Unauthorized);
        }
        let mut all = texts_copy(&self.policies[i].tags);
        let ghost start = all@;
        let mut k: usize = 0;
        while k < normalized.len()
            invariant
                k <= normalized.len(),
                texts(all@) == texts(start) + texts(normalized@).subrange(0, k as int),
            decreases normalized.len() - k,
        {
            let ghost before = all@;
            all.push(bytes_copy(&normalized[k]));
            assert(texts(all@) =~= texts(before).push(normalized@[k as int]@));
            assert(texts(all@) =~= texts(start) + texts(normalized@).subrange(0, k + 1));
            k = k + 1;
        }
        assert(texts(normalized@).subrange(0, normalized.len() as int) =~= texts(normalized@));
        self.set_tags(i, all);
        let ghost before = events@;
        events.push(InsuranceEvent::TagsAdded { policy_id, caller: caller.duplicate(), tags: texts_copy(tags) });
        assert(insurance_event_views(events@) =~= insurance_event_views(before).push(
            InsuranceEventView::TagsAdded { policy_id, caller: caller@, tags: texts(tags@) },
        ));
        Ok(())
    }

    /// Removes from a policy's tags every tag listed (lowered), at its
    /// owner's request; a listed tag that is absent is ignored. Refusals as
    /// for `add_tags_to_policy`.
    pub fn remove_tags_from_policy(
        &mut self,
        caller: &Address,
        policy_id: u32,
        tags: &Vec<Vec<u8>>,
        events: &mut Vec<InsuranceEvent>,
    ) -> (r: Result<(), InsuranceError>)
        requires
            old(self).wf(),
        ensures
            final(self).wf(),
            match old(self).tag_refusal(caller@, policy_id, texts(tags@)) {
                Some(e) => r == Err::<(), InsuranceError>(e) && *final(self) == *old(self) && final(events)@
                    == old(events)@,
                None => {
                    let p = old(self).policy_map()[policy_id];
                    &&& r is Ok
                    &&& final(self).policy_map() == old(self).policy_map().insert(
                        policy_id,
                        PolicyView {
                            tags: without(p.tags, texts(tags@).map_values(|t: Seq<u8>| normalize_tag(t))),
                            ..p
                        },
                    )
                    &&& final(self).owner_index == old(self).owner_index
                    &&& final(self).ext_ref_index == old(self).ext_ref_index
                    &&& final(self).next_id == old(self).next_id
                    &&& insurance_event_views(final(events)@) == insurance_event_views(old(events)@).push(
                        InsuranceEventView::TagsRemoved { policy_id, caller: caller@, tags: texts(tags@) },
                    )
                },
            },
    {
        let normalized = normalize_tags(tags)?;
        let i = match self.find_policy(policy_id) {
            Some(i) => i,
            None => {
                return Err(InsuranceError::PolicyNotFound);
            },
        };
        if !self.policies[i].owner.same(caller) {
            return Err(InsuranceError::Unauthorized);
        }
        let ghost removed = texts(normalized@);
        let ghost existing = texts(self.policies@[i as int].tags@);
        let mut remaining: Vec<Vec<u8>> = Vec::new();
        let mut k: usize = 0;
        while k < self.policies[i].tags.len()
            invariant
                i < self.policies.len(),
                existing == texts(self.policies@[i as int].tags@),
                removed == texts(normalized@),
                k <= existing.len(),
                texts(remaining@) == without(existing.subrange(0, k as int), removed),
            decreases existing.len() - k,
        {
            let tag = &self.policies[i].tags[k];
            let mut listed = false;
            let mut j: usize = 0;
            while j < normalized.len()
                invariant
                    j <= normalized.len(),
                    removed == texts(normalized@),
                    !listed ==> forall|w: int| 0 <= w < j ==> #[trigger] removed[w] != tag@,
                    listed ==> removed.contains(tag@),
                decreases normalized.len() - j,
            {
                if !listed && bytes_eq(tag, &normalized[j]) {
                    listed = true;
                    assert(removed[j as int] == tag@);
                }
                j = j + 1;
            }
            let ghost next = existing.subrange(0, k + 1);
            assert(next.drop_last() =~= existing.subrange(0, k as int));
            assert(next.last() == tag@);
            if !listed {
                let ghost before = remaining@;
                remaining.push(bytes_copy(tag));
                assert(texts(remaining@) =~= texts(before).push(tag@));
            }
            k = k + 1;
        }
        assert(existing.subrange(0, existing.len() as int) =~= existing);
        self.set_tags(i, remaining);
        let ghost before = events@;
        events.push(InsuranceEvent::TagsRemoved { policy_id, caller: caller.duplicate(), tags: texts_copy(tags) });
        assert(insurance_event_views(events@) =~= insurance_event_views(before).push(
            InsuranceEventView::TagsRemoved { policy_id, caller: caller@, tags: texts(tags@) },
        ));
        Ok(())
    }
}


/// A change that keeps the owner index, stores no new id and keeps the owner
/// of every stored policy keeps the owner index and the policies in agreement.
pub proof fn lemma_owners_listed_kept(pre: &Insurance, post: &Insurance)
    requires
        pre.owners_listed(),
        post.owner_index@ == pre.owner_index@,
        forall|id: u32| #[trigger]
            post.policy_map().dom().contains(id) ==> pre.policy_map().dom().contains(id)
                && post.policy_map()[id].owner == pre.policy_map()[id].owner,
    ensures
        post.owners_listed(),
{
    assert forall|o: Seq<u8>| #[trigger] post.ids_of(o) == pre.ids_of(o) by {}
    assert forall|o: Seq<u8>, a: int|
        0 <= a < post.ids_of(o).len() && post.policy_map().dom().contains(
            #[trigger] post.ids_of(o)[a],
        ) implies post.policy_map()[post.ids_of(o)[a]].owner == o by {
        assert(post.ids_of(o) == pre.ids_of(o));
        assert(pre.ids_of(o)[a] == post.ids_of(o)[a]);
    }
    assert forall|id: u32| #[trigger] post.policy_map().dom().contains(id) implies post.ids_of(
        post.policy_map()[id].owner,
    ).contains(id) by {
        assert(post.ids_of(pre.policy_map()[id].owner) == pre.ids_of(pre.policy_map()[id].owner));
    }
}

/// No two active policies of one owner hold the same external reference.
pub proof fn lemma_unique_external_refs(s: Insurance, a: u32, b: u32)
    requires
        s.wf(),
        s.policy_map().dom().contains(a),
        s.policy_map().dom().contains(b),
        s.policy_map()[a].active,
        s.policy_map()[b].active,
        s.policy_map()[a].owner == s.policy_map()[b].owner,
        s.policy_map()[a].external_ref is Some,
        s.policy_map()[a].external_ref == s.policy_map()[b].external_ref,
    ensures
        a == b,
{
    assert(s.ref_holder(s.policy_map()[a].owner, s.policy_map()[a].external_ref->Some_0) == Some(a));
    assert(s.ref_holder(s.policy_map()[b].owner, s.policy_map()[b].external_ref->Some_0) == Some(b));
}

/// No owner ever holds more than `MAX_POLICIES_PER_OWNER` active policies,
/// and every stored premium and coverage amount lies within its bounds.
pub proof fn lemma_policy_bounds(s: Insurance, owner: Seq<u8>, id: u32)
    requires
        s.wf(),
    ensures
        count_active(s.policies@, owner) <= MAX_POLICIES_PER_OWNER,
        s.policy_map().dom().contains(id) ==> 0 < s.policy_map()[id].monthly_premium <= MAX_MONTHLY_PREMIUM
            && 0 < s.policy_map()[id].coverage_amount <= MAX_COVERAGE_AMOUNT && 0 < id <= s.next_id,
{
    if s.policy_map().dom().contains(id) {
        let i = s.slot_of(id);
        s.lemma_slot(i);
    }
}

/// Ids are never reused: the id a new policy gets exceeds every stored id
/// and every id listed for any owner.
pub proof fn lemma_fresh_id(s: Insurance, owner: Seq<u8>, id: u32, j: int)
    requires
        s.wf(),
        s.next_id < u32::MAX,
    ensures
        s.policy_map().dom().contains(id) ==> id < s.next_id + 1,
        0 <= j < s.ids_of(owner).len() ==> s.ids_of(owner)[j] < s.next_id + 1,
{
    lemma_policy_bounds(s, owner, id);
    if 0 <= j < s.ids_of(owner).len() {
        assert(s.owner_index@.dom().contains(owner));
        assert(s.ids_of(owner)[j] <= s.next_id);
    }
}

/// Ids ascend strictly along `ids`.
pub open spec fn ids_ascend(ids: Seq<u32>) -> bool {
    forall|a: int, b: int| 0 <= a < b < ids.len() ==> #[trigger] ids[a] < #[trigger] ids[b]
}

/// Raising the cursor from `c` to `d` drops a prefix of the eligible ids,
/// exactly those not above `d`.
pub proof fn lemma_eligible_split(m: Map<u32, PolicyView>, ids: Seq<u32>, c: u32, d: u32)
    requires
        ids_ascend(ids),
        c <= d,
    ensures
        ({
            let ec = eligible_after(m, ids, c);
            let ed = eligible_after(m, ids, d);
            &&& ed.len() <= ec.len()
            &&& ec == ec.subrange(0, ec.len() - ed.len()) + ed
            &&& forall|j: int| 0 <= j < ec.len() - ed.len() ==> #[trigger] ec[j] <= d
            &&& forall|j: int| 0 <= j < ed.len() ==> #[trigger] ed[j] > d
            &&& ids_ascend(ec)
        }),
    decreases ids.len(),
{
    if ids.len() > 0 {
        let init = ids.drop_last();
        let last = ids.last();
        assert(ids_ascend(init)) by {
            assert forall|a: int, b: int| 0 <= a < b < init.len() implies #[trigger] init[a] < #[trigger] init[b] by {
                assert(ids[a] < ids[b]);
            }
        }
        lemma_eligible_split(m, init, c, d);
        lemma_eligible_members(m, init, c);
        lemma_eligible_members(m, init, d);
        let pc = eligible_after(m, init, c);
        let pd = eligible_after(m, init, d);
        let ec = eligible_after(m, ids, c);
        let ed = eligible_after(m, ids, d);
        assert forall|j: int| 0 <= j < pc.len() implies #[trigger] pc[j] < last by {
            let w = choose|w: int| 0 <= w < init.len() && init[w] == pc[j];
            assert(ids[w] < ids[ids.len() - 1]);
        }
        if page_eligible(m, c, last) {
            assert forall|a: int, b: int| 0 <= a < b < ec.len() implies #[trigger] ec[a] < #[trigger] ec[b] by {
                if b == ec.len() - 1 {
                    assert(ec[a] == pc[a]);
                } else {
                    assert(ec[a] == pc[a]);
                    assert(ec[b] == pc[b]);
                }
            }
            if last > d {
                assert(ec =~= ec.subrange(0, ec.len() - ed.len()) + ed);
            } else {
                assert(pd.len() == 0) by {
                    if pd.len() > 0 {
                        let w = choose|w: int| 0 <= w < init.len() && init[w] == pd[0];
                        assert(ids[w] < ids[ids.len() - 1]);
                    }
                }
                assert(ec =~= ec.subrange(0, ec.len() - ed.len()) + ed);
            }
        } else {
            assert(ec =~= ec.subrange(0, ec.len() - ed.len()) + ed);
        }
    }
}

/// Paging resumes where the last full page stopped: with an owner's ids in
/// ascending order, the ids eligible after the last id of a full page are
/// the eligible ids that follow that page, so walking the pages sees every
/// active policy once, in ascending order.
pub proof fn lemma_pages_resume(m: Map<u32, PolicyView>, ids: Seq<u32>, cursor: u32, lim: u32)
    requires
        ids_ascend(ids),
        lim > 0,
        page_ids(m, ids, cursor, lim).len() == lim,
    ensures
        ({
            let e = eligible_after(m, ids, cursor);
            let last = page_ids(m, ids, cursor, lim).last();
            &&& last > cursor
            &&& eligible_after(m, ids, last) == e.subrange(lim as int, e.len() as int)
        }),
{
    let e = eligible_after(m, ids, cursor);
    let page = page_ids(m, ids, cursor, lim);
    let last = page.last();
    assert(page[lim - 1] == e[lim - 1]);
    lemma_eligible_members(m, ids, cursor);
    assert(page_eligible(m, cursor, e[lim - 1]));
    lemma_eligible_split(m, ids, cursor, last);
    let ed = eligible_after(m, ids, last);
    let k = e.len() - ed.len();
    // the ids not above `last` are exactly the first `lim`
    assert(k == lim) by {
        if k < lim {
            assert(e[lim - 1] == ed[lim - 1 - k]);
            assert(ed[lim - 1 - k] > last);
        }
        if k > lim {
            assert(e[lim as int] <= last);
            assert(e[lim - 1] < e[lim as int]);
        }
    }
    assert(ed =~= e.subrange(lim as int, e.len() as int)) by {
        assert forall|j: int| 0 <= j < ed.len() implies ed[j] == e.subrange(lim as int, e.len() as int)[j] by {
            assert(e[lim + j] == (e.subrange(0, k) + ed)[lim + j]);
        }
    }
}

/// An eligible id listed in `ids` survives the filter.
pub proof fn lemma_eligible_contains(m: Map<u32, PolicyView>, ids: Seq<u32>, cursor: u32, x: u32)
    requires
        ids.contains(x),
        page_eligible(m, cursor, x),
    ensures
        eligible_after(m, ids, cursor).contains(x),
    decreases ids.len(),
{
    let e = eligible_after(m, ids, cursor);
    if ids.last() == x {
        assert(e[e.len() - 1] == x);
    } else {
        let w = choose|w: int| 0 <= w < ids.len() && ids[w] == x;
        assert(w < ids.len() - 1);
        assert(ids.drop_last()[w] == x);
        lemma_eligible_contains(m, ids.drop_last(), cursor, x);
        let r = eligible_after(m, ids.drop_last(), cursor);
        let v = choose|v: int| 0 <= v < r.len() && r[v] == x;
        assert(e[v] == x);
    }
}

/// Walking an owner's pages from cursor zero sees exactly the owner's active
/// policies, each once, in ascending id order: the ids a first walk draws
/// from (the eligible ids at cursor zero, cut into pages by
/// `lemma_pages_resume`) ascend, each names an active policy of `owner`, and
/// every active policy of `owner` is among them.
pub proof fn lemma_pages_cover_owner(s: Insurance, owner: Seq<u8>)
    requires
        s.wf(),
    ensures
        ({
            let m = s.policy_map();
            let e = eligible_after(m, s.ids_of(owner), 0);
            &&& ids_ascend(e)
            &&& forall|j: int| 0 <= j < e.len() ==> m.dom().contains(#[trigger] e[j]) && m[e[j]].active
                && m[e[j]].owner == owner
            &&& forall|id: u32| m.dom().contains(id) && m[id].active && m[id].owner == owner
                ==> #[trigger] e.contains(id)
        }),
{
    let m = s.policy_map();
    let ids = s.ids_of(owner);
    let e = eligible_after(m, ids, 0);
    lemma_owner_ids_ascend(s, owner);
    lemma_eligible_split(m, ids, 0, 0);
    lemma_eligible_members(m, ids, 0);
    assert forall|j: int| 0 <= j < e.len() implies m.dom().contains(#[trigger] e[j]) && m[e[j]].active
        && m[e[j]].owner == owner by {
        let w = choose|w: int| 0 <= w < ids.len() && ids[w] == e[j];
        assert(m.dom().contains(ids[w]));
    }
    assert forall|id: u32| m.dom().contains(id) && m[id].active && m[id].owner == owner implies #[trigger] e.contains(
        id,
    ) by {
        lemma_policy_bounds(s, owner, id);
        assert(s.ids_of(m[id].owner).contains(id));
        lemma_eligible_contains(m, ids, 0, id);
    }
}

/// The ids a walk over the pages yields, starting at `cursor`: each page
/// resumes after the last id of the page before, and the walk stops at the
/// first page that is not full (whose next cursor is zero).
pub open spec fn page_walk(m: Map<u32, PolicyView>, ids: Seq<u32>, cursor: u32, lim: u32) -> Seq<u32>
    decreases u32::MAX - cursor,
{
    let page = page_ids(m, ids, cursor, lim);
    if lim == 0 || page.len() < lim {
        page
    } else {
        proof {
            lemma_eligible_members(m, ids, cursor);
            assert(page.last() == eligible_after(m, ids, cursor)[lim - 1]);
        }
        page + page_walk(m, ids, page.last(), lim)
    }
}

/// Walking the pages of ascending ids from `cursor` yields every id
/// eligible after `cursor`, once each, in order.
pub proof fn lemma_page_walk(m: Map<u32, PolicyView>, ids: Seq<u32>, cursor: u32, lim: u32)
    requires
        ids_ascend(ids),
        lim > 0,
    ensures
        page_walk(m, ids, cursor, lim) == eligible_after(m, ids, cursor),
    decreases u32::MAX - cursor,
{
    let e = eligible_after(m, ids, cursor);
    let page = page_ids(m, ids, cursor, lim);
    if page.len() < lim {
        assert(page == e);
    } else {
        lemma_pages_resume(m, ids, cursor, lim);
        let last = page.last();
        lemma_page_walk(m, ids, last, lim);
        assert(page == e.subrange(0, lim as int));
        assert(e =~= e.subrange(0, lim as int) + e.subrange(lim as int, e.len() as int));
    }
}

/// The whole walk over an owner's pages, from cursor zero with any page
/// size, ends and yields exactly the owner's active policies, each once,
/// in ascending id order.
pub proof fn lemma_owner_page_walk(s: Insurance, owner: Seq<u8>, limit: u32)
    requires
        s.wf(),
    ensures
        ({
            let m = s.policy_map();
            let w = page_walk(m, s.ids_of(owner), 0, Insurance::clamped(limit));
            &&& ids_ascend(w)
            &&& forall|j: int| 0 <= j < w.len() ==> m.dom().contains(#[trigger] w[j]) && m[w[j]].active
                && m[w[j]].owner == owner
            &&& forall|id: u32| m.dom().contains(id) && m[id].active && m[id].owner == owner
                ==> #[trigger] w.contains(id)
        }),
{
    lemma_owner_ids_ascend(s, owner);
    lemma_page_walk(s.policy_map(), s.ids_of(owner), 0, Insurance::clamped(limit));
    lemma_pages_cover_owner(s, owner);
}

/// A page asks for exactly the page size the caller names when it lies in
/// `1..=MAX_PAGE_LIMIT`; zero asks for `DEFAULT_PAGE_LIMIT` and a larger size
/// is cut to `MAX_PAGE_LIMIT`. A page then holds that many policies, or all
/// the eligible ones when fewer remain.
pub proof fn lemma_page_size(m: Map<u32, PolicyView>, ids: Seq<u32>, cursor: u32, limit: u32)
    ensures
        0 < limit <= MAX_PAGE_LIMIT ==> Insurance::clamped(limit) == limit,
        limit == 0 ==> Insurance::clamped(limit) == DEFAULT_PAGE_LIMIT,
        limit > MAX_PAGE_LIMIT ==> Insurance::clamped(limit) == MAX_PAGE_LIMIT,
        ({
            let e = eligible_after(m, ids, cursor);
            let n = page_ids(m, ids, cursor, Insurance::clamped(limit)).len();
            &&& 0 < limit <= MAX_PAGE_LIMIT ==> n == (if e.len() < limit {
                e.len()
            } else {
                limit as nat
            })
            &&& n <= MAX_PAGE_LIMIT
            &&& page_ids(m, ids, cursor, Insurance::clamped(limit)) == e.subrange(0, n as int)
        }),
{
    let e = eligible_after(m, ids, cursor);
    let lim = Insurance::clamped(limit);
    if e.len() <= lim {
        assert(e.subrange(0, e.len() as int) =~= e);
    }
}

/// What decides a change of external reference on an active policy that
/// the caller owns: clearing the reference is always accepted; a new
/// reference is accepted when its length is in `1..=MAX_EXTERNAL_REF_LEN`
/// and no other active policy of the caller holds it, and refused with
/// `InvalidExternalRef` or `DuplicateExternalRef` otherwise. An accepted
/// change frees the old reference in the index and makes the new one (if
/// any) name the policy, leaving every other entry as it was.
pub proof fn lemma_external_ref_change(s: Insurance, caller: Seq<u8>, id: u32, new_ref: Option<Seq<u8>>)
    requires
        s.wf(),
        s.policy_map().dom().contains(id),
        s.policy_map()[id].owner == caller,
        s.policy_map()[id].active,
    ensures
        new_ref is None ==> s.set_ref_refusal(caller, id, new_ref) is None,
        new_ref is Some && new_ref != s.policy_map()[id].external_ref ==> {
            let x = new_ref->Some_0;
            &&& !(0 < x.len() <= MAX_EXTERNAL_REF_LEN) ==> s.set_ref_refusal(caller, id, new_ref) == Some(
                InsuranceError::InvalidExternalRef,
            )
            &&& (0 < x.len() <= MAX_EXTERNAL_REF_LEN && exists|other: u32|
                other != id && s.policy_map().dom().contains(other) && s.policy_map()[other].active
                    && s.policy_map()[other].owner == caller && #[trigger] s.policy_map()[other].external_ref
                    == new_ref) ==> s.set_ref_refusal(caller, id, new_ref) == Some(
                InsuranceError::DuplicateExternalRef,
            )
            &&& (0 < x.len() <= MAX_EXTERNAL_REF_LEN && forall|other: u32|
                other != id && s.policy_map().dom().contains(other) && s.policy_map()[other].active
                    && s.policy_map()[other].owner == caller ==> #[trigger] s.policy_map()[other].external_ref
                    != new_ref) ==> s.set_ref_refusal(caller, id, new_ref) is None
        },
        forall|o: Seq<u8>, x: Seq<u8>| #[trigger]
            s.reindexed(caller, s.policy_map()[id].external_ref, new_ref, id, o, x) == if new_ref == Some(x)
                && o == caller {
                Some(id)
            } else if s.policy_map()[id].external_ref == Some(x) && o == caller {
                None
            } else {
                s.ref_holder(o, x)
            },
{
    if let Some(x) = new_ref {
        if exists|other: u32|
            other != id && s.policy_map().dom().contains(other) && s.policy_map()[other].active
                && s.policy_map()[other].owner == caller && #[trigger] s.policy_map()[other].external_ref
                == new_ref {
            let other = choose|other: u32|
                other != id && s.policy_map().dom().contains(other) && s.policy_map()[other].active
                    && s.policy_map()[other].owner == caller && #[trigger] s.policy_map()[other].external_ref
                    == new_ref;
            assert(s.ref_holder(caller, x) == Some(other));
        }
        if s.ref_holder(caller, x) is Some {
            let h = s.ref_holder(caller, x)->Some_0;
            assert(s.policy_map()[h].external_ref == Some(x));
        }
    }
}

/// Every owner's id list ascends, so paging an owner's policies resumes
/// correctly (see `lemma_pages_resume`).
pub proof fn lemma_owner_ids_ascend(s: Insurance, owner: Seq<u8>)
    requires
        s.wf(),
    ensures
        ids_ascend(s.ids_of(owner)),
{
    if s.owner_index@.dom().contains(owner) {
        let ids = s.owner_index@[owner]@;
        assert forall|a: int, b: int| 0 <= a < b < ids.len() implies #[trigger] ids[a] < #[trigger] ids[b] by {}
    }
}

} // verus!
