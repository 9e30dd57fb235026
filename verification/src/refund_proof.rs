//! The proof behind a refund: the original payment read from its sealed
//! receipt (the tightest payment authority it was granted, one rail, its
//! provider proof and money movement) and the verified refunds already made
//! against it.
use vstd::prelude::*;

use crate::export_shim::{json_quote, json_string_literal};
use crate::json::JsonModel;
use crate::json_text::{
    entries_text, int_text, items_text, json_text, lemma_entries_text_push, lemma_items_text_push,
};
use crate::text::{
    concat, decimal_digits, decimal_u64, seq_less, starts_with, starts_with_spec, str_eq, str_less,
};

verus! {

broadcast use vstd::seq_lib::group_to_multiset_ensures;

/// The effect family of payments.
pub const PAYMENT_FAMILY: &'static str = "payment";

/// The operation a refund receipt binds.
pub const REFUND_OPERATION: &'static str = "refund";

/// The prefix of money movement references.
pub const MONEY_MOVEMENT_URI_PREFIX: &'static str = "runx:money_movement:";

/// The prefix of receipt references.
pub const RECEIPT_URI_PREFIX: &'static str = "runx:receipt:";

/// What an authority term lets its holder do.
#[derive(Clone, Copy, Debug, PartialEq, Eq, Structural)]
pub enum AuthorityVerb {
    Read,
    Verify,
    Commit,
    Reverse,
}

impl AuthorityVerb {
    /// The verb's name.
    pub fn name(&self) -> (r: &'static str)
        ensures
            r@ == verb_name(*self),
    {
        match self {
            AuthorityVerb::Read => "Read",
            AuthorityVerb::Verify => "Verify",
            AuthorityVerb::Commit => "Commit",
            AuthorityVerb::Reverse => "Reverse",
        }
    }
}

pub open spec fn verb_name(v: AuthorityVerb) -> Seq<char> {
    match v {
        AuthorityVerb::Read => "Read"@,
        AuthorityVerb::Verify => "Verify"@,
        AuthorityVerb::Commit => "Commit"@,
        AuthorityVerb::Reverse => "Reverse"@,
    }
}

/// The bounds an authority term puts on one effect family.
#[derive(Clone, Debug, PartialEq, Eq)]
pub struct AuthorityEffectLimit {
    pub family: String,
    pub unit: String,
    pub max_per_call_units: Option<u64>,
    pub channels: Vec<String>,
    pub peer: Option<String>,
    pub operation: Option<String>,
    pub receipt_before_success: bool,
    pub idempotency_required: bool,
    pub recovery_required: bool,
    pub single_use_capability: bool,
}

/// An authority term of a receipt: its verbs and effect limits.
#[derive(Clone, Debug, PartialEq, Eq)]
pub struct AuthorityTerm {
    pub verbs: Vec<AuthorityVerb>,
    pub effect_limits: Vec<AuthorityEffectLimit>,
}

/// What a reference points at.
#[derive(Clone, Copy, Debug, PartialEq, Eq)]
pub enum ReferenceType {
    Receipt,
    Verification,
    Target,
    Grant,
    Principal,
}

/// What a verification reference proves.
#[derive(Clone, Copy, Debug, PartialEq, Eq)]
pub enum ProofKind {
    EffectEvidence,
    EffectFinality,
}

/// A reference carried by a receipt.
#[derive(Clone, Debug, PartialEq, Eq)]
pub struct Reference {
    pub reference_type: ReferenceType,
    pub uri: String,
    pub proof_kind: Option<ProofKind>,
}

/// A copy of a reference.
pub fn copy_reference(r: &Reference) -> (c: Reference)
    ensures
        c == *r,
{
    Reference { reference_type: r.reference_type, uri: r.uri.clone(), proof_kind: r.proof_kind }
}

/// An act of a receipt: what it read, targeted and produced, and the
/// verification references of each of its criteria.
#[derive(Clone, Debug, PartialEq, Eq)]
pub struct ReceiptAct {
    pub source_refs: Vec<Reference>,
    pub target_refs: Vec<Reference>,
    pub artifact_refs: Vec<Reference>,
    pub criterion_verification_refs: Vec<Vec<Reference>>,
}

/// A verified receipt, as far as payment proofs read it.
#[derive(Clone, Debug, PartialEq, Eq)]
pub struct PaymentReceipt {
    pub id: String,
    pub digest: String,
    pub closed: bool,
    pub terms: Vec<AuthorityTerm>,
    pub acts: Vec<ReceiptAct>,
}

// ---------------------------------------------------------------------------
// The payment authority
// ---------------------------------------------------------------------------
/// The first payment limit of a term.
pub open spec fn payment_limit_index(limits: Seq<AuthorityEffectLimit>) -> Option<int>
    decreases limits.len(),
{
    if limits.len() == 0 {
        None
    } else if limits[0].family@ == PAYMENT_FAMILY@ {
        Some(0)
    } else {
        match payment_limit_index(limits.drop_first()) {
            Some(i) => Some(i + 1),
            None => None,
        }
    }
}

proof fn lemma_payment_limit_index(limits: Seq<AuthorityEffectLimit>)
    ensures
        payment_limit_index(limits) matches Some(i) ==> 0 <= i < limits.len() && limits[i].family@ == PAYMENT_FAMILY@,
    decreases limits.len(),
{
    if limits.len() > 0 && limits[0].family@ != PAYMENT_FAMILY@ {
        lemma_payment_limit_index(limits.drop_first());
    }
}

/// The first payment limit of a term, if any.
pub fn payment_limit(term: &AuthorityTerm) -> (r: Option<usize>)
    ensures
        match payment_limit_index(term.effect_limits@) {
            Some(i) => r matches Some(x) && x as int == i,
            None => r is None,
        },
        r matches Some(i) ==> i < term.effect_limits@.len() && term.effect_limits@[i as int].family@
            == PAYMENT_FAMILY@,
{
    proof {
        lemma_payment_limit_index(term.effect_limits@);
    }
    let mut i: usize = 0;
    let ghost limits = term.effect_limits@;
    assert(limits.subrange(0, limits.len() as int) =~= limits);
    while i < term.effect_limits.len()
        invariant
            i <= limits.len(),
            limits == term.effect_limits@,
            payment_limit_index(limits) == match payment_limit_index(limits.subrange(i as int, limits.len() as int)) {
                Some(j) => Some(j + i),
                None => None::<int>,
            },
        decreases term.effect_limits.len() - i,
    {
        let ghost rest = limits.subrange(i as int, limits.len() as int);
        assert(rest.drop_first() =~= limits.subrange(i + 1, limits.len() as int));
        assert(rest[0] == limits[i as int]);
        if str_eq(term.effect_limits[i].family.as_str(), PAYMENT_FAMILY) {
            return Some(i);
        }
        i = i + 1;
    }
    None
}

/// Whether a term grants `verb`.
pub open spec fn grants_verb(term: AuthorityTerm, verb: AuthorityVerb) -> bool {
    term.verbs@.contains(verb)
}

/// A term that can bound a payment under `verb`.
pub open spec fn candidate(term: AuthorityTerm, verb: AuthorityVerb) -> bool {
    grants_verb(term, verb) && payment_limit_index(term.effect_limits@) is Some
}

/// The payment limit of a candidate term.
pub open spec fn limit_of(term: AuthorityTerm) -> AuthorityEffectLimit {
    term.effect_limits@[payment_limit_index(term.effect_limits@)->0]
}

/// How tight a bound is: its per-call cap (unbounded counts as the largest),
/// then its number of channels.
pub open spec fn cap_of(l: AuthorityEffectLimit) -> int {
    match l.max_per_call_units {
        Some(u) => u as int,
        None => u64::MAX as int,
    }
}

pub open spec fn tighter(a: AuthorityEffectLimit, b: AuthorityEffectLimit) -> bool {
    cap_of(a) < cap_of(b) || (cap_of(a) == cap_of(b) && a.channels@.len() < b.channels@.len())
}

/// The tightest candidate among the first `terms`, the earliest of equally
/// tight ones.
pub open spec fn best_candidate(terms: Seq<AuthorityTerm>, verb: AuthorityVerb) -> Option<int>
    decreases terms.len(),
{
    if terms.len() == 0 {
        None
    } else {
        let prior = best_candidate(terms.drop_last(), verb);
        let last = terms.len() - 1;
        if candidate(terms[last], verb) && (prior is None || tighter(
            limit_of(terms[last]),
            limit_of(terms[prior->0]),
        )) {
            Some(last)
        } else {
            prior
        }
    }
}

fn grants(term: &AuthorityTerm, verb: AuthorityVerb) -> (r: bool)
    ensures
        r == grants_verb(*term, verb),
{
    let mut i: usize = 0;
    while i < term.verbs.len()
        invariant
            i <= term.verbs@.len(),
            forall|j: int| 0 <= j < i ==> #[trigger] term.verbs@[j] != verb,
        decreases term.verbs.len() - i,
    {
        if term.verbs[i] == verb {
            assert(term.verbs@[i as int] == verb);
            return true;
        }
        i = i + 1;
    }
    false
}

fn limit_tighter(a: &AuthorityEffectLimit, b: &AuthorityEffectLimit) -> (r: bool)
    ensures
        r == tighter(*a, *b),
{
    let ca: u64 = match a.max_per_call_units {
        Some(u) => u,
        None => u64::MAX,
    };
    let cb: u64 = match b.max_per_call_units {
        Some(u) => u,
        None => u64::MAX,
    };
    ca < cb || (ca == cb && a.channels.len() < b.channels.len())
}

pub open spec fn no_authority_message(id: Seq<char>, verb: AuthorityVerb) -> Seq<char> {
    "payment receipt "@ + id + " has no bounded "@ + verb_name(verb) + " authority"@
}

pub open spec fn finality_message(id: Seq<char>) -> Seq<char> {
    "payment receipt "@ + id + " lacks required finality controls"@
}

/// Whether a limit demands every finality control a payment needs.
pub open spec fn finality_controls(l: AuthorityEffectLimit) -> bool {
    l.receipt_before_success && l.idempotency_required && l.recovery_required && l.single_use_capability
}

/// The payment authority a receipt was granted under `verb`: the tightest
/// payment bound among the terms granting it, which must demand every
/// finality control. Returns the term's position.
pub fn validated_payment_limit(receipt: &PaymentReceipt, verb: AuthorityVerb) -> (r: Result<usize, String>)
    ensures
        match validated_limit_spec(*receipt, verb) {
            Ok(i) => r matches Ok(x) && x as int == i,
            Err(e) => r matches Err(m) && m@ == e,
        },
{
    let mut best: Option<usize> = None;
    let mut best_limit: usize = 0;
    let mut i: usize = 0;
    assert(receipt.terms@.subrange(0, 0) =~= Seq::<AuthorityTerm>::empty());
    while i < receipt.terms.len()
        invariant
            i <= receipt.terms@.len(),
            best_candidate(receipt.terms@.subrange(0, i as int), verb) == match best {
                Some(b) => Some(b as int),
                None => None::<int>,
            },
            best matches Some(b) ==> b < i && candidate(receipt.terms@[b as int], verb)
                && payment_limit_index(receipt.terms@[b as int].effect_limits@) == Some(best_limit as int)
                && best_limit < receipt.terms@[b as int].effect_limits@.len(),
        decreases receipt.terms.len() - i,
    {
        let ghost prefix = receipt.terms@.subrange(0, i + 1);
        assert(prefix.drop_last() =~= receipt.terms@.subrange(0, i as int));
        assert(prefix[i as int] == receipt.terms@[i as int]);
        let term = &receipt.terms[i];
        proof {
            lemma_payment_limit_index(receipt.terms@[i as int].effect_limits@);
        }
        if grants(term, verb) {
            match payment_limit(term) {
                Some(li) => {
                    assert(payment_limit_index(receipt.terms@[i as int].effect_limits@) == Some(li as int));
                    assert(limit_of(receipt.terms@[i as int]) == receipt.terms@[i as int].effect_limits@[li as int]);
                    let better = match best {
                        None => true,
                        Some(b) => limit_tighter(&term.effect_limits[li], &receipt.terms[b].effect_limits[best_limit]),
                    };
                    proof {
                        if let Some(b) = best {
                            assert(limit_of(receipt.terms@[b as int]) == receipt.terms@[b as int].effect_limits@[best_limit as int]);
                            assert(prefix[b as int] == receipt.terms@[b as int]);
                        }
                    }
                    if better {
                        best = Some(i);
                        best_limit = li;
                    }
                },
                None => {},
            }
        }
        i = i + 1;
    }
    assert(receipt.terms@.subrange(0, receipt.terms@.len() as int) =~= receipt.terms@);
    match best {
        None => {
            let a = concat("payment receipt ", receipt.id.as_str());
            let b = concat(a.as_str(), " has no bounded ");
            let c = concat(b.as_str(), verb.name());
            Err(concat(c.as_str(), " authority"))
        },
        Some(b) => {
            let l = &receipt.terms[b].effect_limits[best_limit];
            if !l.receipt_before_success || !l.idempotency_required || !l.recovery_required
                || !l.single_use_capability {
                let a = concat("payment receipt ", receipt.id.as_str());
                return Err(concat(a.as_str(), " lacks required finality controls"));
            }
            Ok(b)
        },
    }
}

/// The selected authority is the tightest of all: no term granting the verb
/// has a strictly tighter payment bound, and none before it is as tight.
pub proof fn lemma_best_candidate_is_tightest(terms: Seq<AuthorityTerm>, verb: AuthorityVerb)
    ensures
        best_candidate(terms, verb) matches Some(b) ==> 0 <= b < terms.len() && candidate(terms[b], verb)
            && (forall|j: int|
            0 <= j < terms.len() && candidate(#[trigger] terms[j], verb) ==> !tighter(
                limit_of(terms[j]),
                limit_of(terms[b]),
            )) && (forall|j: int|
            0 <= j < b && candidate(#[trigger] terms[j], verb) ==> tighter(
                limit_of(terms[b]),
                limit_of(terms[j]),
            )),
        best_candidate(terms, verb) is None ==> forall|j: int|
            0 <= j < terms.len() ==> !candidate(#[trigger] terms[j], verb),
    decreases terms.len(),
{
    if terms.len() > 0 {
        let p = terms.drop_last();
        lemma_best_candidate_is_tightest(p, verb);
        let last = terms.len() - 1;
        assert forall|j: int| 0 <= j < last implies #[trigger] terms[j] == p[j] by {}
        match best_candidate(p, verb) {
            Some(b) => {
                assert(p[b] == terms[b]);
                if best_candidate(terms, verb) == Some(last) {
                    assert forall|j: int|
                        0 <= j < terms.len() && candidate(#[trigger] terms[j], verb) implies !tighter(
                        limit_of(terms[j]),
                        limit_of(terms[last]),
                    ) by {
                        if j < last {
                            assert(p[j] == terms[j]);
                        }
                    }
                    assert forall|j: int| 0 <= j < last && candidate(#[trigger] terms[j], verb) implies tighter(
                        limit_of(terms[last]),
                        limit_of(terms[j]),
                    ) by {
                        assert(p[j] == terms[j]);
                        assert(!tighter(limit_of(p[j]), limit_of(p[b])));
                    }
                } else {
                    assert forall|j: int|
                        0 <= j < terms.len() && candidate(#[trigger] terms[j], verb) implies !tighter(
                        limit_of(terms[j]),
                        limit_of(terms[b]),
                    ) by {
                        if j < last {
                            assert(p[j] == terms[j]);
                        }
                    }
                    assert forall|j: int| 0 <= j < b && candidate(#[trigger] terms[j], verb) implies tighter(
                        limit_of(terms[b]),
                        limit_of(terms[j]),
                    ) by {
                        assert(p[j] == terms[j]);
                    }
                }
            },
            None => {
                assert forall|j: int| 0 <= j < last implies !candidate(#[trigger] terms[j], verb) by {
                    assert(p[j] == terms[j]);
                }
            },
        }
    }
}

// ---------------------------------------------------------------------------
// References
// ---------------------------------------------------------------------------
/// Every verification reference of a receipt's criteria, act by act.
pub open spec fn verification_refs(acts: Seq<ReceiptAct>) -> Seq<Reference>
    decreases acts.len(),
{
    if acts.len() == 0 {
        Seq::empty()
    } else {
        verification_refs(acts.drop_last()) + criterion_refs(acts.last().criterion_verification_refs@)
    }
}

pub open spec fn criterion_refs(c: Seq<Vec<Reference>>) -> Seq<Reference>
    decreases c.len(),
{
    if c.len() == 0 {
        Seq::empty()
    } else {
        criterion_refs(c.drop_last()) + c.last()@
    }
}

/// The verification references of a receipt.
pub fn receipt_verification_refs(receipt: &PaymentReceipt) -> (r: Vec<Reference>)
    ensures
        r@ == verification_refs(receipt.acts@),
{
    let mut out: Vec<Reference> = Vec::new();
    let mut i: usize = 0;
    assert(receipt.acts@.subrange(0, 0) =~= Seq::<ReceiptAct>::empty());
    while i < receipt.acts.len()
        invariant
            i <= receipt.acts@.len(),
            out@ == verification_refs(receipt.acts@.subrange(0, i as int)),
        decreases receipt.acts.len() - i,
    {
        assert(receipt.acts@.subrange(0, i + 1).drop_last() =~= receipt.acts@.subrange(0, i as int));
        let act = &receipt.acts[i];
        let ghost base = out@;
        let mut c: usize = 0;
        assert(act.criterion_verification_refs@.subrange(0, 0) =~= Seq::<Vec<Reference>>::empty());
        while c < act.criterion_verification_refs.len()
            invariant
                c <= act.criterion_verification_refs@.len(),
                out@ == base + criterion_refs(act.criterion_verification_refs@.subrange(0, c as int)),
            decreases act.criterion_verification_refs.len() - c,
        {
            assert(act.criterion_verification_refs@.subrange(0, c + 1).drop_last()
                =~= act.criterion_verification_refs@.subrange(0, c as int));
            let refs = &act.criterion_verification_refs[c];
            let ghost before = out@;
            let mut k: usize = 0;
            while k < refs.len()
                invariant
                    k <= refs@.len(),
                    out@ == before + refs@.subrange(0, k as int),
                decreases refs.len() - k,
            {
                out.push(copy_reference(&refs[k]));
                assert(out@ =~= before + refs@.subrange(0, k + 1));
                k = k + 1;
            }
            assert(refs@.subrange(0, refs@.len() as int) =~= refs@);
            assert(out@ =~= base + criterion_refs(act.criterion_verification_refs@.subrange(0, c + 1)));
            c = c + 1;
        }
        assert(act.criterion_verification_refs@.subrange(0, act.criterion_verification_refs@.len() as int)
            =~= act.criterion_verification_refs@);
        i = i + 1;
    }
    assert(receipt.acts@.subrange(0, receipt.acts@.len() as int) =~= receipt.acts@);
    out
}

/// Which references count: provider effect proofs, or money movements.
#[derive(Clone, Copy, Debug, PartialEq, Eq)]
pub enum ReferenceRole {
    ProviderEffectProof,
    MoneyMovement,
}

pub open spec fn plays(r: Reference, role: ReferenceRole) -> bool {
    match role {
        ReferenceRole::ProviderEffectProof => r.proof_kind == Some(ProofKind::EffectEvidence),
        ReferenceRole::MoneyMovement => starts_with_spec(r.uri@, MONEY_MOVEMENT_URI_PREFIX@),
    }
}

pub open spec fn role_label(role: ReferenceRole) -> Seq<char> {
    match role {
        ReferenceRole::ProviderEffectProof => "provider effect proof"@,
        ReferenceRole::MoneyMovement => "money movement"@,
    }
}

/// How many references play a role.
pub open spec fn role_count(refs: Seq<Reference>, role: ReferenceRole) -> nat
    decreases refs.len(),
{
    if refs.len() == 0 {
        0
    } else {
        role_count(refs.drop_last(), role) + if plays(refs.last(), role) {
            1nat
        } else {
            0nat
        }
    }
}

proof fn lemma_role_count_one(refs: Seq<Reference>, role: ReferenceRole, i: int)
    requires
        role_count(refs, role) == 1,
        0 <= i < refs.len(),
        plays(refs[i], role),
    ensures
        forall|j: int| 0 <= j < refs.len() && j != i ==> !plays(#[trigger] refs[j], role),
    decreases refs.len(),
{
    let p = refs.drop_last();
    if i == refs.len() - 1 {
        lemma_role_count_zero(p, role);
        assert forall|j: int| 0 <= j < refs.len() && j != i implies !plays(#[trigger] refs[j], role) by {
            assert(p[j] == refs[j]);
        }
    } else {
        assert(p[i] == refs[i]);
        if plays(refs.last(), role) {
            lemma_role_count_positive(p, role, i);
        }
        lemma_role_count_one(p, role, i);
        assert forall|j: int| 0 <= j < refs.len() && j != i implies !plays(#[trigger] refs[j], role) by {
            if j < refs.len() - 1 {
                assert(p[j] == refs[j]);
            }
        }
    }
}

proof fn lemma_role_count_zero(refs: Seq<Reference>, role: ReferenceRole)
    requires
        role_count(refs, role) == 0,
    ensures
        forall|j: int| 0 <= j < refs.len() ==> !plays(#[trigger] refs[j], role),
    decreases refs.len(),
{
    if refs.len() > 0 {
        let p = refs.drop_last();
        lemma_role_count_zero(p, role);
        assert forall|j: int| 0 <= j < refs.len() implies !plays(#[trigger] refs[j], role) by {
            if j < refs.len() - 1 {
                assert(p[j] == refs[j]);
            }
        }
    }
}

proof fn lemma_role_count_positive(refs: Seq<Reference>, role: ReferenceRole, i: int)
    requires
        0 <= i < refs.len(),
        plays(refs[i], role),
    ensures
        role_count(refs, role) >= 1,
    decreases refs.len(),
{
    if i < refs.len() - 1 {
        assert(refs.drop_last()[i] == refs[i]);
        lemma_role_count_positive(refs.drop_last(), role, i);
    }
}

fn plays_role(r: &Reference, role: ReferenceRole) -> (b: bool)
    ensures
        b == plays(*r, role),
{
    match role {
        ReferenceRole::ProviderEffectProof => match r.proof_kind {
            Some(ProofKind::EffectEvidence) => true,
            _ => false,
        },
        ReferenceRole::MoneyMovement => starts_with(r.uri.as_str(), MONEY_MOVEMENT_URI_PREFIX),
    }
}

pub open spec fn single_reference_message(id: Seq<char>, role: ReferenceRole) -> Seq<char> {
    "payment receipt "@ + id + " must contain exactly one "@ + role_label(role) + " reference"@
}

/// The URI of the one reference playing `role`.
pub fn single_reference_uri(references: &Vec<Reference>, role: ReferenceRole, receipt_id: &str) -> (r: Result<
    String,
    String,
>)
    ensures
        role_count(references@, role) == 1 ==> (r matches Ok(u) && exists|i: int|
            0 <= i < references@.len() && plays(#[trigger] references@[i], role) && u@ == references@[i].uri@),
        role_count(references@, role) != 1 ==> (r matches Err(m) && m@ == single_reference_message(
            receipt_id@,
            role,
        )),
{
    let mut count: usize = 0;
    let mut first: usize = 0;
    let mut i: usize = 0;
    assert(references@.subrange(0, 0) =~= Seq::<Reference>::empty());
    while i < references.len()
        invariant
            i <= references@.len(),
            count == role_count(references@.subrange(0, i as int), role),
            count <= i,
            count > 0 ==> first < i && plays(references@[first as int], role),
        decreases references.len() - i,
    {
        assert(references@.subrange(0, i + 1).drop_last() =~= references@.subrange(0, i as int));
        if plays_role(&references[i], role) {
            if count == 0 {
                first = i;
            }
            count = count + 1;
        }
        i = i + 1;
    }
    assert(references@.subrange(0, references@.len() as int) =~= references@);
    if count == 1 {
        return Ok(references[first].uri.clone());
    }
    let a = concat("payment receipt ", receipt_id);
    let b = concat(a.as_str(), " must contain exactly one ");
    let label = match role {
        ReferenceRole::ProviderEffectProof => "provider effect proof",
        ReferenceRole::MoneyMovement => "money movement",
    };
    let c = concat(b.as_str(), label);
    Err(concat(c.as_str(), " reference"))
}

/// The provider proof and money movement a payment receipt binds.
pub open spec fn proof_identity(refs: Seq<Reference>) -> Option<(Seq<char>, Seq<char>)> {
    if role_count(refs, ReferenceRole::ProviderEffectProof) == 1 && role_count(refs, ReferenceRole::MoneyMovement)
        == 1 {
        let p = choose|i: int|
            0 <= i < refs.len() && plays(#[trigger] refs[i], ReferenceRole::ProviderEffectProof);
        let m = choose|i: int| 0 <= i < refs.len() && plays(#[trigger] refs[i], ReferenceRole::MoneyMovement);
        Some((refs[p].uri@, refs[m].uri@.subrange(MONEY_MOVEMENT_URI_PREFIX@.len() as int, refs[m].uri@.len() as int)))
    } else {
        None
    }
}

/// The provider effect proof and the money movement id of a payment
/// receipt: exactly one of each, the movement id not empty.
pub fn payment_proof_identity(receipt: &PaymentReceipt) -> (r: Result<(String, String), String>)
    ensures
        ({
            let refs = verification_refs(receipt.acts@);
            if role_count(refs, ReferenceRole::ProviderEffectProof) != 1 {
                r matches Err(m) && m@ == single_reference_message(receipt.id@, ReferenceRole::ProviderEffectProof)
            } else if role_count(refs, ReferenceRole::MoneyMovement) != 1 {
                r matches Err(m) && m@ == single_reference_message(receipt.id@, ReferenceRole::MoneyMovement)
            } else if (proof_identity(refs)->0).1.len() == 0 {
                r matches Err(m) && m@ == "payment receipt money movement reference is malformed"@
            } else {
                r matches Ok((p, mv)) && p@ == (proof_identity(refs)->0).0 && mv@ == (proof_identity(refs)->0).1
            }
        }),
{
    let refs = receipt_verification_refs(receipt);
    let proof_ref = match single_reference_uri(&refs, ReferenceRole::ProviderEffectProof, receipt.id.as_str()) {
        Ok(u) => u,
        Err(e) => {
            return Err(e);
        },
    };
    let movement_ref = match single_reference_uri(&refs, ReferenceRole::MoneyMovement, receipt.id.as_str()) {
        Ok(u) => u,
        Err(e) => {
            return Err(e);
        },
    };
    proof {
        let rs = refs@;
        let p = choose|i: int| 0 <= i < rs.len() && plays(#[trigger] rs[i], ReferenceRole::ProviderEffectProof);
        let m = choose|i: int| 0 <= i < rs.len() && plays(#[trigger] rs[i], ReferenceRole::MoneyMovement);
        let pi = choose|i: int|
            0 <= i < rs.len() && plays(#[trigger] rs[i], ReferenceRole::ProviderEffectProof) && proof_ref@
                == rs[i].uri@;
        let mi = choose|i: int|
            0 <= i < rs.len() && plays(#[trigger] rs[i], ReferenceRole::MoneyMovement) && movement_ref@ == rs[i].uri@;
        lemma_role_count_one(rs, ReferenceRole::ProviderEffectProof, pi);
        lemma_role_count_one(rs, ReferenceRole::MoneyMovement, mi);
        if p != pi {
            assert(!plays(rs[p], ReferenceRole::ProviderEffectProof));
        }
        if m != mi {
            assert(!plays(rs[m], ReferenceRole::MoneyMovement));
        }
        reveal_strlit("runx:money_movement:");
    }
    let chars = crate::text::chars_of(movement_ref.as_str());
    let prefix_len: usize = 20;
    proof {
        reveal_strlit("runx:money_movement:");
    }
    let id = crate::text::string_from_range(&chars, prefix_len, chars.len());
    if id.as_str().unicode_len() == 0 {
        return Err("payment receipt money movement reference is malformed".to_owned());
    }
    Ok((proof_ref, id))
}

/// Whether a reference points at the receipt `original`.
pub open spec fn points_at(r: Reference, original: Seq<char>) -> bool {
    r.reference_type == ReferenceType::Receipt && r.uri@ == RECEIPT_URI_PREFIX@ + original
}

/// Every reference an act carries.
pub open spec fn act_refs(a: ReceiptAct) -> Seq<Reference> {
    a.source_refs@ + a.target_refs@ + a.artifact_refs@ + criterion_refs(a.criterion_verification_refs@)
}

/// Whether some act of a receipt points at the receipt `original`.
pub open spec fn references_original(acts: Seq<ReceiptAct>, original: Seq<char>) -> bool {
    exists|i: int, j: int|
        0 <= i < acts.len() && 0 <= j < act_refs(acts[i]).len() && points_at(#[trigger] act_refs(acts[i])[j], original)
}

fn any_points_at(refs: &Vec<Reference>, expected: &str) -> (r: bool)
    ensures
        r == exists|j: int| 0 <= j < refs@.len() && refs@[j].reference_type == ReferenceType::Receipt && #[trigger] refs@[j].uri@
            == expected@,
{
    let mut j: usize = 0;
    while j < refs.len()
        invariant
            j <= refs@.len(),
            forall|k: int|
                0 <= k < j ==> !(refs@[k].reference_type == ReferenceType::Receipt && #[trigger] refs@[k].uri@
                    == expected@),
        decreases refs.len() - j,
    {
        let is_receipt = match refs[j].reference_type {
            ReferenceType::Receipt => true,
            _ => false,
        };
        if is_receipt && str_eq(refs[j].uri.as_str(), expected) {
            return true;
        }
        j = j + 1;
    }
    false
}

/// Whether a receipt refers to the receipt `original_receipt_ref`.
pub fn references_original_receipt(receipt: &PaymentReceipt, original_receipt_ref: &str) -> (r: bool)
    ensures
        r == references_original(receipt.acts@, original_receipt_ref@),
{
    let expected = concat(RECEIPT_URI_PREFIX, original_receipt_ref);
    let mut i: usize = 0;
    while i < receipt.acts.len()
        invariant
            i <= receipt.acts@.len(),
            expected@ == RECEIPT_URI_PREFIX@ + original_receipt_ref@,
            forall|a: int, j: int|
                0 <= a < i && 0 <= j < act_refs(receipt.acts@[a]).len() ==> !points_at(
                    #[trigger] act_refs(receipt.acts@[a])[j],
                    original_receipt_ref@,
                ),
        decreases receipt.acts.len() - i,
    {
        let act = &receipt.acts[i];
        let all = receipt_act_refs(act);
        let found = any_points_at(&all, expected.as_str());
        proof {
            assert(all@ == act_refs(receipt.acts@[i as int]));
            if found {
                let j = choose|j: int|
                    0 <= j < all@.len() && all@[j].reference_type == ReferenceType::Receipt && #[trigger] all@[j].uri@
                        == expected@;
                assert(points_at(act_refs(receipt.acts@[i as int])[j], original_receipt_ref@));
            }
        }
        if found {
            return true;
        }
        i = i + 1;
    }
    false
}

fn receipt_act_refs(act: &ReceiptAct) -> (r: Vec<Reference>)
    ensures
        r@ == act_refs(*act),
{
    let mut out: Vec<Reference> = Vec::new();
    let mut k: usize = 0;
    while k < act.source_refs.len()
        invariant
            k <= act.source_refs@.len(),
            out@ == act.source_refs@.subrange(0, k as int),
        decreases act.source_refs.len() - k,
    {
        out.push(copy_reference(&act.source_refs[k]));
        assert(out@ =~= act.source_refs@.subrange(0, k + 1));
        k = k + 1;
    }
    assert(act.source_refs@.subrange(0, act.source_refs@.len() as int) =~= act.source_refs@);
    let ghost b1 = out@;
    k = 0;
    while k < act.target_refs.len()
        invariant
            k <= act.target_refs@.len(),
            out@ == b1 + act.target_refs@.subrange(0, k as int),
        decreases act.target_refs.len() - k,
    {
        out.push(copy_reference(&act.target_refs[k]));
        assert(out@ =~= b1 + act.target_refs@.subrange(0, k + 1));
        k = k + 1;
    }
    assert(act.target_refs@.subrange(0, act.target_refs@.len() as int) =~= act.target_refs@);
    let ghost b2 = out@;
    k = 0;
    while k < act.artifact_refs.len()
        invariant
            k <= act.artifact_refs@.len(),
            out@ == b2 + act.artifact_refs@.subrange(0, k as int),
        decreases act.artifact_refs.len() - k,
    {
        out.push(copy_reference(&act.artifact_refs[k]));
        assert(out@ =~= b2 + act.artifact_refs@.subrange(0, k + 1));
        k = k + 1;
    }
    assert(act.artifact_refs@.subrange(0, act.artifact_refs@.len() as int) =~= act.artifact_refs@);
    let ghost b3 = out@;
    let mut c: usize = 0;
    assert(act.criterion_verification_refs@.subrange(0, 0) =~= Seq::<Vec<Reference>>::empty());
    while c < act.criterion_verification_refs.len()
        invariant
            c <= act.criterion_verification_refs@.len(),
            out@ == b3 + criterion_refs(act.criterion_verification_refs@.subrange(0, c as int)),
        decreases act.criterion_verification_refs.len() - c,
    {
        assert(act.criterion_verification_refs@.subrange(0, c + 1).drop_last()
            =~= act.criterion_verification_refs@.subrange(0, c as int));
        let refs = &act.criterion_verification_refs[c];
        let ghost before = out@;
        let mut j: usize = 0;
        while j < refs.len()
            invariant
                j <= refs@.len(),
                out@ == before + refs@.subrange(0, j as int),
            decreases refs.len() - j,
        {
            out.push(copy_reference(&refs[j]));
            assert(out@ =~= before + refs@.subrange(0, j + 1));
            j = j + 1;
        }
        assert(refs@.subrange(0, refs@.len() as int) =~= refs@);
        assert(out@ =~= b3 + criterion_refs(act.criterion_verification_refs@.subrange(0, c + 1)));
        c = c + 1;
    }
    assert(act.criterion_verification_refs@.subrange(0, act.criterion_verification_refs@.len() as int)
        =~= act.criterion_verification_refs@);
    out
}


// ---------------------------------------------------------------------------
// The payment a receipt proves
// ---------------------------------------------------------------------------
/// What a sealed payment receipt proves.
#[derive(Debug, PartialEq, Eq)]
pub struct PaymentReceiptProjection {
    pub rail: String,
    pub operation: String,
    pub amount_minor: u64,
    pub currency: String,
    pub counterparty: String,
    pub proof_ref: String,
    pub money_movement_id: String,
}

/// The mathematical content of a projection.
pub struct ProjectionModel {
    pub rail: Seq<char>,
    pub operation: Seq<char>,
    pub amount_minor: nat,
    pub currency: Seq<char>,
    pub counterparty: Seq<char>,
    pub proof_ref: Seq<char>,
    pub money_movement_id: Seq<char>,
}

pub open spec fn projection_model(p: PaymentReceiptProjection) -> ProjectionModel {
    ProjectionModel {
        rail: p.rail@,
        operation: p.operation@,
        amount_minor: p.amount_minor as nat,
        currency: p.currency@,
        counterparty: p.counterparty@,
        proof_ref: p.proof_ref@,
        money_movement_id: p.money_movement_id@,
    }
}

/// The term whose payment bound a receipt proves under `verb`, or why none.
pub open spec fn validated_limit_spec(receipt: PaymentReceipt, verb: AuthorityVerb) -> Result<int, Seq<char>> {
    match best_candidate(receipt.terms@, verb) {
        None => Err(no_authority_message(receipt.id@, verb)),
        Some(i) => if finality_controls(limit_of(receipt.terms@[i])) {
            Ok(i)
        } else {
            Err(finality_message(receipt.id@))
        },
    }
}

/// The provider proof and money movement a receipt binds, or why not.
pub open spec fn proof_identity_spec(receipt: PaymentReceipt) -> Result<(Seq<char>, Seq<char>), Seq<char>> {
    let refs = verification_refs(receipt.acts@);
    if role_count(refs, ReferenceRole::ProviderEffectProof) != 1 {
        Err(single_reference_message(receipt.id@, ReferenceRole::ProviderEffectProof))
    } else if role_count(refs, ReferenceRole::MoneyMovement) != 1 {
        Err(single_reference_message(receipt.id@, ReferenceRole::MoneyMovement))
    } else if (proof_identity(refs)->0).1.len() == 0 {
        Err("payment receipt money movement reference is malformed"@)
    } else {
        Ok(proof_identity(refs)->0)
    }
}

pub open spec fn binding_message(id: Seq<char>, binding: Seq<char>) -> Seq<char> {
    "payment receipt "@ + id + " has no "@ + binding + " binding"@
}

/// What a receipt proves of a payment under `verb`, or why it proves none.
pub open spec fn projection_spec(receipt: PaymentReceipt, verb: AuthorityVerb) -> Result<ProjectionModel, Seq<char>> {
    let id = receipt.id@;
    if !receipt.closed {
        Err("payment receipt "@ + id + " is not closed"@)
    } else {
        match validated_limit_spec(receipt, verb) {
            Err(e) => Err(e),
            Ok(t) => {
                let l = limit_of(receipt.terms@[t]);
                if l.max_per_call_units is None {
                    Err("payment receipt "@ + id + " has no per-call amount bound"@)
                } else if l.channels@.len() != 1 {
                    Err("payment receipt "@ + id + " must bind exactly one rail"@)
                } else if l.operation is None {
                    Err(binding_message(id, "operation"@))
                } else if l.peer is None {
                    Err(binding_message(id, "counterparty"@))
                } else {
                    match proof_identity_spec(receipt) {
                        Err(e) => Err(e),
                        Ok((proof_ref, movement)) => Ok(
                            ProjectionModel {
                                rail: l.channels@[0]@,
                                operation: (l.operation->0)@,
                                amount_minor: (l.max_per_call_units->0) as nat,
                                currency: l.unit@,
                                counterparty: (l.peer->0)@,
                                proof_ref,
                                money_movement_id: movement,
                            },
                        ),
                    }
                }
            },
        }
    }
}

/// Reads what a sealed payment receipt proves under `verb`.
pub fn payment_projection(receipt: &PaymentReceipt, verb: AuthorityVerb) -> (r: Result<
    PaymentReceiptProjection,
    String,
>)
    ensures
        match projection_spec(*receipt, verb) {
            Ok(m) => r matches Ok(p) && projection_model(p) == m,
            Err(e) => r matches Err(x) && x@ == e,
        },
{
    if !receipt.closed {
        let a = concat("payment receipt ", receipt.id.as_str());
        return Err(concat(a.as_str(), " is not closed"));
    }
    let t = match validated_payment_limit(receipt, verb) {
        Ok(t) => t,
        Err(e) => {
            return Err(e);
        },
    };
    proof {
        lemma_best_candidate_is_tightest(receipt.terms@, verb);
    }
    let term = &receipt.terms[t];
    let li = match payment_limit(term) {
        Some(li) => li,
        None => {
            proof {
                assert(candidate(receipt.terms@[t as int], verb));
                assert(false);
            }
            return Err("payment receipt has no payment limit".to_owned());
        },
    };
    proof {
        lemma_payment_limit_index(term.effect_limits@);
    }
    let l = &term.effect_limits[li];
    let amount_minor = match l.max_per_call_units {
        Some(a) => a,
        None => {
            let a = concat("payment receipt ", receipt.id.as_str());
            return Err(concat(a.as_str(), " has no per-call amount bound"));
        },
    };
    if l.channels.len() != 1 {
        let a = concat("payment receipt ", receipt.id.as_str());
        return Err(concat(a.as_str(), " must bind exactly one rail"));
    }
    let operation = match &l.operation {
        Some(o) => o.clone(),
        None => {
            let a = concat("payment receipt ", receipt.id.as_str());
            let c = concat(a.as_str(), " has no ");
            let d = concat(c.as_str(), "operation");
            return Err(concat(d.as_str(), " binding"));
        },
    };
    let counterparty = match &l.peer {
        Some(p) => p.clone(),
        None => {
            let a = concat("payment receipt ", receipt.id.as_str());
            let c = concat(a.as_str(), " has no ");
            let d = concat(c.as_str(), "counterparty");
            return Err(concat(d.as_str(), " binding"));
        },
    };
    let (proof_ref, money_movement_id) = match payment_proof_identity(receipt) {
        Ok(v) => v,
        Err(e) => {
            return Err(e);
        },
    };
    Ok(
        PaymentReceiptProjection {
            rail: l.channels[0].clone(),
            operation,
            amount_minor,
            currency: l.unit.clone(),
            counterparty,
            proof_ref,
            money_movement_id,
        },
    )
}

// ---------------------------------------------------------------------------
// Refund history
// ---------------------------------------------------------------------------
/// One verified refund: its receipt, that receipt's digest, and the amount.
pub type RefundEntry = (String, String, u64);

pub open spec fn entry_view(e: RefundEntry) -> (Seq<char>, Seq<char>, nat) {
    (e.0@, e.1@, e.2 as nat)
}

/// Whether the identities of a refund and the original payment match.
pub open spec fn same_identity(refund: ProjectionModel, original: ProjectionModel) -> bool {
    refund.rail == original.rail && refund.currency == original.currency && refund.counterparty
        == original.counterparty
}

/// The refunds recorded against the original payment among `receipts`, in
/// the order listed, with their total; or the first reason the history is
/// invalid.
pub open spec fn history_spec(
    receipts: Seq<PaymentReceipt>,
    original_id: Seq<char>,
    original: ProjectionModel,
) -> Result<(nat, Seq<(Seq<char>, Seq<char>, nat)>), Seq<char>>
    decreases receipts.len(),
{
    if receipts.len() == 0 {
        Ok((0, Seq::empty()))
    } else {
        match history_spec(receipts.drop_last(), original_id, original) {
            Err(e) => Err(e),
            Ok((sum, entries)) => {
                let r = receipts.last();
                if r.id@ == original_id || !references_original(r.acts@, original_id) {
                    Ok((sum, entries))
                } else {
                    match projection_spec(r, AuthorityVerb::Reverse) {
                        Err(e) => Err(e),
                        Ok(refund) => if refund.operation != REFUND_OPERATION@ {
                            Ok((sum, entries))
                        } else if !same_identity(refund, original) {
                            Err("refund receipt "@ + r.id@ + " does not match the original payment identity"@)
                        } else if sum + refund.amount_minor > u64::MAX {
                            Err("verified refund history amount overflowed"@)
                        } else {
                            Ok((sum + refund.amount_minor, entries.push((r.id@, r.digest@, refund.amount_minor))))
                        },
                    }
                }
            },
        }
    }
}

/// `r` is a refund of the payment: not the payment's own receipt, it
/// references the payment, projects as a refund, and moved `amount` on the
/// payment's rail, in its currency, with its counterparty.
pub open spec fn refund_of_payment(
    r: PaymentReceipt,
    original_id: Seq<char>,
    original: ProjectionModel,
    amount: nat,
) -> bool {
    &&& r.id@ != original_id
    &&& references_original(r.acts@, original_id)
    &&& match projection_spec(r, AuthorityVerb::Reverse) {
        Ok(p) => p.operation == REFUND_OPERATION@ && p.rail == original.rail && p.currency == original.currency
            && p.counterparty == original.counterparty && p.amount_minor == amount,
        Err(_) => false,
    }
}

/// A refund counts against a payment only when it moved money back the way
/// the payment came: a receipt that references the original, is not the
/// original itself, and projects as a refund on another rail, in another
/// currency or with another counterparty makes the history invalid.
pub proof fn lemma_refund_of_another_identity_is_refused(
    receipts: Seq<PaymentReceipt>,
    original_id: Seq<char>,
    original: ProjectionModel,
    j: int,
)
    requires
        0 <= j < receipts.len(),
        receipts[j].id@ != original_id,
        references_original(receipts[j].acts@, original_id),
        projection_spec(receipts[j], AuthorityVerb::Reverse) is Ok,
        projection_spec(receipts[j], AuthorityVerb::Reverse)->Ok_0.operation == REFUND_OPERATION@,
        projection_spec(receipts[j], AuthorityVerb::Reverse)->Ok_0.rail != original.rail
            || projection_spec(receipts[j], AuthorityVerb::Reverse)->Ok_0.currency != original.currency
            || projection_spec(receipts[j], AuthorityVerb::Reverse)->Ok_0.counterparty != original.counterparty,
    ensures
        history_spec(receipts, original_id, original) is Err,
{
    let p = receipts.subrange(0, j + 1);
    assert(p.drop_last() =~= receipts.subrange(0, j));
    assert(p.last() == receipts[j]);
    lemma_history_error_persists(receipts, original_id, original, j + 1);
}

/// Every refund in a valid history is a refund of the payment among the
/// receipts given, with that refund's amount; the total is the sum of the
/// amounts.
pub proof fn lemma_history_refunds_match_the_payment(
    receipts: Seq<PaymentReceipt>,
    original_id: Seq<char>,
    original: ProjectionModel,
)
    ensures
        history_spec(receipts, original_id, original) matches Ok((sum, entries)) ==> (forall|k: int|
            0 <= k < entries.len() ==> exists|j: int|
                0 <= j < receipts.len() && #[trigger] receipts[j].id@ == (#[trigger] entries[k]).0 && refund_of_payment(
                    receipts[j],
                    original_id,
                    original,
                    entries[k].2,
                )) && sum == entries_total(entries),
    decreases receipts.len(),
{
    if receipts.len() > 0 {
        let d = receipts.drop_last();
        lemma_history_refunds_match_the_payment(d, original_id, original);
        if let Ok((sum, entries)) = history_spec(receipts, original_id, original) {
            let (s0, e0) = history_spec(d, original_id, original)->Ok_0;
            let n = receipts.len() - 1;
            assert(receipts[n] == receipts.last());
            assert forall|k: int| 0 <= k < entries.len() implies exists|j: int|
                0 <= j < receipts.len() && #[trigger] receipts[j].id@ == (#[trigger] entries[k]).0 && refund_of_payment(
                    receipts[j],
                    original_id,
                    original,
                    entries[k].2,
                ) by {
                if k < e0.len() {
                    assert(entries[k] == e0[k]);
                    let j = choose|j: int|
                        0 <= j < d.len() && #[trigger] d[j].id@ == e0[k].0 && refund_of_payment(
                            d[j],
                            original_id,
                            original,
                            e0[k].2,
                        );
                    assert(receipts[j] == d[j]);
                } else {
                    assert(receipts[n].id@ == entries[k].0);
                }
            }
            if entries.len() > e0.len() {
                assert(entries.drop_last() =~= e0);
            } else {
                assert(entries =~= e0);
            }
        }
    }
}

/// No refund of the payment is left out: in a valid history, every receipt
/// that is a refund of the payment has its entry (receipt id, digest,
/// amount).
pub proof fn lemma_history_counts_every_refund(
    receipts: Seq<PaymentReceipt>,
    original_id: Seq<char>,
    original: ProjectionModel,
    j: int,
    amount: nat,
)
    requires
        0 <= j < receipts.len(),
        refund_of_payment(receipts[j], original_id, original, amount),
    ensures
        history_spec(receipts, original_id, original) matches Ok((sum, entries)) ==> exists|k: int|
            0 <= k < entries.len() && #[trigger] entries[k] == (receipts[j].id@, receipts[j].digest@, amount),
    decreases receipts.len(),
{
    let d = receipts.drop_last();
    let n = receipts.len() - 1;
    assert(receipts[n] == receipts.last());
    if let Ok((sum, entries)) = history_spec(receipts, original_id, original) {
        let (s0, e0) = history_spec(d, original_id, original)->Ok_0;
        if j < n {
            assert(d[j] == receipts[j]);
            lemma_history_counts_every_refund(d, original_id, original, j, amount);
            let k = choose|k: int|
                0 <= k < e0.len() && #[trigger] e0[k] == (d[j].id@, d[j].digest@, amount);
            if entries.len() > e0.len() {
                assert(entries[k] == entries.drop_last()[k]);
                assert(entries.drop_last() =~= e0);
            } else {
                assert(entries =~= e0);
            }
            assert(entries[k] == e0[k]);
        } else {
            let k = e0.len() as int;
            assert(entries[k] == (receipts[j].id@, receipts[j].digest@, amount));
        }
    }
}

/// The total of some refund entries.
pub open spec fn entries_total(entries: Seq<(Seq<char>, Seq<char>, nat)>) -> nat
    decreases entries.len(),
{
    if entries.len() == 0 {
        0
    } else {
        entries_total(entries.drop_last()) + entries.last().2
    }
}

/// The verified refunds of a payment: the total refunded and the entries,
/// ordered by receipt.
#[derive(Debug, PartialEq, Eq)]
pub struct VerifiedRefundHistory {
    pub refunded_minor: u64,
    pub entries: Vec<RefundEntry>,
}

pub open spec fn entries_view(e: Seq<RefundEntry>) -> Seq<(Seq<char>, Seq<char>, nat)> {
    e.map_values(|x: RefundEntry| entry_view(x))
}

/// Entries ordered by receipt reference.
pub open spec fn sorted_by_receipt(e: Seq<(Seq<char>, Seq<char>, nat)>) -> bool {
    forall|i: int, j: int| 0 <= i < j < e.len() ==> !seq_less(#[trigger] e[j].0, #[trigger] e[i].0)
}

/// Reads the refunds already verified against the original payment.
pub fn verified_refund_history(
    receipts: &Vec<PaymentReceipt>,
    original: &PaymentReceipt,
    original_projection: &PaymentReceiptProjection,
) -> (r: Result<VerifiedRefundHistory, String>)
    ensures
        match history_spec(receipts@, original.id@, projection_model(*original_projection)) {
            Ok((sum, entries)) => r matches Ok(h) && h.refunded_minor == sum && entries_view(h.entries@).to_multiset()
                == entries.to_multiset() && sorted_by_receipt(entries_view(h.entries@)),
            Err(e) => r matches Err(x) && x@ == e,
        },
{
    let ghost orig = projection_model(*original_projection);
    let mut refunded_minor: u64 = 0;
    let mut entries: Vec<RefundEntry> = Vec::new();
    let mut i: usize = 0;
    assert(receipts@.subrange(0, 0) =~= Seq::<PaymentReceipt>::empty());
    assert(entries_view(entries@) =~= Seq::<(Seq<char>, Seq<char>, nat)>::empty());
    while i < receipts.len()
        invariant
            i <= receipts@.len(),
            orig == projection_model(*original_projection),
            history_spec(receipts@.subrange(0, i as int), original.id@, orig) == Ok::<
                (nat, Seq<(Seq<char>, Seq<char>, nat)>),
                Seq<char>,
            >((refunded_minor as nat, entries_view(entries@))),
        decreases receipts.len() - i,
    {
        let ghost prefix = receipts@.subrange(0, i + 1);
        assert(prefix.drop_last() =~= receipts@.subrange(0, i as int));
        assert(prefix.last() == receipts@[i as int]);
        let receipt = &receipts[i];
        if str_eq(receipt.id.as_str(), original.id.as_str()) || !references_original_receipt(
            receipt,
            original.id.as_str(),
        ) {
            i = i + 1;
            continue;
        }
        let refund = match payment_projection(receipt, AuthorityVerb::Reverse) {
            Ok(p) => p,
            Err(e) => {
                proof {
                    lemma_history_error_persists(receipts@, original.id@, orig, i as int + 1);
                }
                return Err(e);
            },
        };
        if !str_eq(refund.operation.as_str(), REFUND_OPERATION) {
            i = i + 1;
            continue;
        }
        if !str_eq(refund.rail.as_str(), original_projection.rail.as_str()) || !str_eq(
            refund.currency.as_str(),
            original_projection.currency.as_str(),
        ) || !str_eq(refund.counterparty.as_str(), original_projection.counterparty.as_str()) {
            let a = concat("refund receipt ", receipt.id.as_str());
            proof {
                lemma_history_error_persists(receipts@, original.id@, orig, i as int + 1);
            }
            return Err(concat(a.as_str(), " does not match the original payment identity"));
        }
        refunded_minor = match refunded_minor.checked_add(refund.amount_minor) {
            Some(total) => total,
            None => {
                proof {
                    lemma_history_error_persists(receipts@, original.id@, orig, i as int + 1);
                }
                return Err("verified refund history amount overflowed".to_owned());
            },
        };
        let ghost before = entries_view(entries@);
        entries.push((receipt.id.clone(), receipt.digest.clone(), refund.amount_minor));
        assert(entries_view(entries@) =~= before.push((receipt.id@, receipt.digest@, refund.amount_minor as nat)));
        i = i + 1;
    }
    assert(receipts@.subrange(0, receipts@.len() as int) =~= receipts@);
    let sorted = sort_entries(entries);
    Ok(VerifiedRefundHistory { refunded_minor, entries: sorted })
}

/// Once a prefix of the history is invalid, so is every longer one.
proof fn lemma_history_error_persists(
    receipts: Seq<PaymentReceipt>,
    original_id: Seq<char>,
    original: ProjectionModel,
    n: int,
)
    requires
        0 < n <= receipts.len(),
        history_spec(receipts.subrange(0, n), original_id, original) is Err,
    ensures
        history_spec(receipts, original_id, original) == history_spec(receipts.subrange(0, n), original_id, original),
    decreases receipts.len() - n,
{
    if n < receipts.len() {
        let longer = receipts.subrange(0, n + 1);
        assert(longer.drop_last() =~= receipts.subrange(0, n));
        lemma_history_error_persists(receipts, original_id, original, n + 1);
    } else {
        assert(receipts.subrange(0, n) =~= receipts);
    }
}

fn least_entry_index(v: &Vec<RefundEntry>) -> (k: usize)
    requires
        v@.len() > 0,
    ensures
        k < v@.len(),
        forall|j: int| 0 <= j < v@.len() ==> !seq_less(#[trigger] v@[j].0@, v@[k as int].0@),
{
    let mut k: usize = 0;
    let mut i: usize = 1;
    proof {
        crate::text::lemma_seq_less_irreflexive(v@[0].0@);
    }
    while i < v.len()
        invariant
            1 <= i <= v@.len(),
            k < i,
            forall|j: int| 0 <= j < i ==> !seq_less(#[trigger] v@[j].0@, v@[k as int].0@),
        decreases v.len() - i,
    {
        if str_less(v[i].0.as_str(), v[k].0.as_str()) {
            proof {
                let ni = v@[i as int].0@;
                let nk = v@[k as int].0@;
                crate::text::lemma_seq_less_irreflexive(ni);
                assert forall|j: int| 0 <= j < i + 1 implies !seq_less(#[trigger] v@[j].0@, ni) by {
                    if j < i {
                        let nj = v@[j].0@;
                        if seq_less(nj, ni) {
                            crate::text::lemma_seq_less_transitive(nj, ni, nk);
                        }
                    }
                }
            }
            k = i;
        } else {
            proof {
                let ni = v@[i as int].0@;
                let nk = v@[k as int].0@;
                crate::text::lemma_seq_less_total(ni, nk);
            }
        }
        i = i + 1;
    }
    k
}

proof fn lemma_entries_view_multiset(a: Seq<RefundEntry>, b: Seq<RefundEntry>)
    requires
        a.to_multiset() == b.to_multiset(),
    ensures
        entries_view(a).to_multiset() == entries_view(b).to_multiset(),
{
    vstd::seq_lib::lemma_multiset_commutative(a, b);
    assert(a.to_multiset() =~= b.to_multiset());
    let f = |x: RefundEntry| entry_view(x);
    assert(entries_view(a) == a.map_values(f));
    assert(entries_view(b) == b.map_values(f));
    lemma_map_values_multiset(a, b, f);
}

proof fn lemma_map_values_multiset<A, B>(a: Seq<A>, b: Seq<A>, f: spec_fn(A) -> B)
    requires
        a.to_multiset() == b.to_multiset(),
    ensures
        a.map_values(f).to_multiset() == b.map_values(f).to_multiset(),
    decreases a.len(),
{
    vstd::seq_lib::lemma_multiset_commutative(a, a);
    if a.len() == 0 {
        assert(b.to_multiset().len() == 0);
        assert(b.len() == 0);
        assert(a.map_values(f) =~= Seq::<B>::empty());
        assert(b.map_values(f) =~= Seq::<B>::empty());
    } else {
        let x = a.last();
        assert(a.to_multiset().count(x) > 0) by {
            assert(a.contains(x)) by {
                assert(a[a.len() - 1] == x);
            }
        }
        assert(b.contains(x));
        let k = choose|k: int| 0 <= k < b.len() && b[k] == x;
        let a2 = a.drop_last();
        let b2 = b.remove(k);
        assert(a2.to_multiset() =~= a.to_multiset().remove(x)) by {
            assert(a =~= a2.push(x));
        }
        assert(b2.to_multiset() =~= b.to_multiset().remove(x));
        lemma_map_values_multiset(a2, b2, f);
        assert(a.map_values(f) =~= a2.map_values(f).push(f(x)));
        assert(b.map_values(f).remove(k) =~= b2.map_values(f));
        assert(b.map_values(f)[k] == f(x));
        assert(b.map_values(f).to_multiset() =~= b2.map_values(f).to_multiset().insert(f(x))) by {
            let bm = b.map_values(f);
            assert(bm.remove(k).to_multiset() =~= bm.to_multiset().remove(bm[k]));
        }
        assert(a.map_values(f).to_multiset() =~= a2.map_values(f).to_multiset().insert(f(x)));
    }
}

/// Orders refund entries by receipt reference, keeping every entry.
fn sort_entries(v: Vec<RefundEntry>) -> (r: Vec<RefundEntry>)
    ensures
        entries_view(r@).to_multiset() == entries_view(v@).to_multiset(),
        sorted_by_receipt(entries_view(r@)),
{
    let mut rest = v;
    let mut out: Vec<RefundEntry> = Vec::new();
    let ghost all = rest@.to_multiset();
    assert(out@.to_multiset().add(rest@.to_multiset()) =~= all);
    while rest.len() > 0
        invariant
            out@.to_multiset().add(rest@.to_multiset()) == all,
            all == v@.to_multiset(),
            sorted_by_receipt(entries_view(out@)),
            forall|a: int, b: int|
                0 <= a < out@.len() && 0 <= b < rest@.len() ==> !seq_less(#[trigger] rest@[b].0@, #[trigger] out@[a].0@),
        decreases rest.len(),
    {
        let k = least_entry_index(&rest);
        let ghost before_rest = rest@;
        let ghost before_out = out@;
        let x = rest.remove(k);
        assert(rest@ =~= before_rest.remove(k as int));
        out.push(x);
        assert(out@ =~= before_out.push(x));
        proof {
            assert(before_rest.remove(k as int).to_multiset() =~= before_rest.to_multiset().remove(x));
            assert(out@.to_multiset() =~= before_out.to_multiset().insert(x));
            assert(before_rest.to_multiset().count(x) > 0) by {
                assert(before_rest.contains(x)) by {
                    assert(before_rest[k as int] == x);
                }
            }
            assert(out@.to_multiset().add(rest@.to_multiset()) =~= all);
            assert forall|a: int, b: int|
                0 <= a < out@.len() && 0 <= b < rest@.len() implies !seq_less(#[trigger] rest@[b].0@, #[trigger] out@[a].0@) by {
                if b < k {
                    assert(rest@[b] == before_rest[b]);
                } else {
                    assert(rest@[b] == before_rest[b + 1]);
                }
            }
            assert forall|i: int, j: int| 0 <= i < j < out@.len() implies !seq_less(
                #[trigger] entries_view(out@)[j].0,
                #[trigger] entries_view(out@)[i].0,
            ) by {
                assert(entries_view(out@)[j].0 == out@[j].0@);
                assert(entries_view(out@)[i].0 == out@[i].0@);
                if j < before_out.len() {
                    assert(entries_view(before_out)[j].0 == out@[j].0@);
                    assert(entries_view(before_out)[i].0 == out@[i].0@);
                }
            }
        }
    }
    assert(rest@.to_multiset() =~= vstd::multiset::Multiset::empty());
    assert(out@.to_multiset() =~= all);
    proof {
        lemma_entries_view_multiset(out@, v@);
    }
    out
}


// ---------------------------------------------------------------------------
// The refund proof
// ---------------------------------------------------------------------------
/// The charge a refund may be taken from.
#[derive(Debug, PartialEq, Eq)]
pub struct RefundableCharge {
    pub money_movement_id: String,
    pub rail: String,
    pub amount_minor: u64,
    pub refunded_minor: u64,
    pub currency: String,
    pub payer_ref: String,
    pub proof_ref: String,
}

/// A verified original payment, the refunds already made against it, and
/// the digest binding both.
#[derive(Debug, PartialEq, Eq)]
pub struct VerifiedRefundProof {
    pub charge: RefundableCharge,
    pub history_receipt_refs: Vec<String>,
    pub proof_digest: String,
}

/// A refund in the proof: `[receipt, digest, amount]`.
pub open spec fn history_item(e: (Seq<char>, Seq<char>, nat)) -> JsonModel {
    JsonModel::Array(
        Seq::empty().push(JsonModel::Str(e.0)).push(JsonModel::Str(e.1)).push(JsonModel::Int(e.2 as int)),
    )
}

/// The refund proof document: the refund history, the money movement, the
/// original receipt's digest and reference, and the provider proof, with
/// its keys in the order a JSON writer keeps them.
pub open spec fn refund_proof_model(
    original_ref: Seq<char>,
    original_digest: Seq<char>,
    money_movement_id: Seq<char>,
    provider_proof_ref: Seq<char>,
    history: Seq<(Seq<char>, Seq<char>, nat)>,
) -> JsonModel {
    JsonModel::Object(
        Seq::empty().push(
            ("history"@, JsonModel::Array(history.map_values(|e: (Seq<char>, Seq<char>, nat)| history_item(e)))),
        ).push(("money_movement_id"@, JsonModel::Str(money_movement_id))).push(
            ("original_receipt_digest"@, JsonModel::Str(original_digest)),
        ).push(("original_receipt_ref"@, JsonModel::Str(original_ref))).push(
            ("provider_proof_ref"@, JsonModel::Str(provider_proof_ref)),
        ),
    )
}

/// The bytes that the refund proof digest covers: the compact JSON text of
/// the proof document, in UTF-8.
pub open spec fn refund_proof_json(
    original_ref: Seq<char>,
    original_digest: Seq<char>,
    money_movement_id: Seq<char>,
    provider_proof_ref: Seq<char>,
    history: Seq<(Seq<char>, Seq<char>, nat)>,
) -> Seq<u8> {
    vstd::utf8::encode_utf8(
        json_text(
            refund_proof_model(original_ref, original_digest, money_movement_id, provider_proof_ref, history),
        )->0,
    )
}

fn history_item_text(e: &RefundEntry) -> (r: String)
    ensures
        json_text(history_item(entry_view(*e))) == Some(r@),
{
    let a = json_quote(e.0.as_str());
    let b = json_quote(e.1.as_str());
    let c = decimal_u64(e.2);
    let mut r = "[".to_owned();
    r.append(a.as_str());
    r.append(",");
    r.append(b.as_str());
    r.append(",");
    r.append(c.as_str());
    r.append("]");
    proof {
        let x = JsonModel::Str(e.0@);
        let y = JsonModel::Str(e.1@);
        let z = JsonModel::Int(e.2 as int);
        let s0 = Seq::<JsonModel>::empty();
        lemma_items_text_push(s0, x);
        lemma_items_text_push(s0.push(x), y);
        lemma_items_text_push(s0.push(x).push(y), z);
        assert(int_text(e.2 as int) == decimal_digits(e.2 as nat));
        assert(items_text(s0) == Some(Seq::<char>::empty()));
        assert(r@ =~= "["@ + (a@ + ","@ + b@ + ","@ + c@) + "]"@);
    }
    r
}

fn push_text_entry(out: &mut String, first: bool, key: &str, value: &str)
    ensures
        final(out)@ == if first {
            old(out)@ + json_string_literal(key@) + ":"@ + value@
        } else {
            old(out)@ + ","@ + json_string_literal(key@) + ":"@ + value@
        },
{
    if !first {
        out.append(",");
    }
    out.append(json_quote(key).as_str());
    out.append(":");
    out.append(value);
}

/// The compact JSON text of the refund proof document.
fn refund_proof_text(
    original_ref: &str,
    original_digest: &str,
    money_movement_id: &str,
    provider_proof_ref: &str,
    history: &Vec<RefundEntry>,
) -> (r: String)
    ensures
        json_text(
            refund_proof_model(
                original_ref@,
                original_digest@,
                money_movement_id@,
                provider_proof_ref@,
                entries_view(history@),
            ),
        ) == Some(r@),
{
    let ghost hm = entries_view(history@).map_values(|e: (Seq<char>, Seq<char>, nat)| history_item(e));
    let mut items = String::new();
    let mut i: usize = 0;
    assert(hm.subrange(0, 0) =~= Seq::<JsonModel>::empty());
    while i < history.len()
        invariant
            i <= history@.len(),
            hm == entries_view(history@).map_values(|e: (Seq<char>, Seq<char>, nat)| history_item(e)),
            items_text(hm.subrange(0, i as int)) == Some(items@),
        decreases history.len() - i,
    {
        let t = history_item_text(&history[i]);
        proof {
            assert(hm.subrange(0, i + 1) =~= hm.subrange(0, i as int).push(hm[i as int]));
            assert(hm[i as int] == history_item(entry_view(history@[i as int])));
            lemma_items_text_push(hm.subrange(0, i as int), hm[i as int]);
        }
        if i > 0 {
            items.append(",");
        }
        items.append(t.as_str());
        i = i + 1;
    }
    assert(hm.subrange(0, history@.len() as int) =~= hm);
    let mut hist = "[".to_owned();
    hist.append(items.as_str());
    hist.append("]");
    let mm = json_quote(money_movement_id);
    let od = json_quote(original_digest);
    let orr = json_quote(original_ref);
    let pr = json_quote(provider_proof_ref);
    let mut body = String::new();
    push_text_entry(&mut body, true, "history", hist.as_str());
    push_text_entry(&mut body, false, "money_movement_id", mm.as_str());
    push_text_entry(&mut body, false, "original_receipt_digest", od.as_str());
    push_text_entry(&mut body, false, "original_receipt_ref", orr.as_str());
    push_text_entry(&mut body, false, "provider_proof_ref", pr.as_str());
    proof {
        let e0 = Seq::<(Seq<char>, JsonModel)>::empty();
        let h = JsonModel::Array(hm);
        assert(json_text(h) == Some(hist@));
        let e1 = e0.push(("history"@, h));
        let e2 = e1.push(("money_movement_id"@, JsonModel::Str(money_movement_id@)));
        let e3 = e2.push(("original_receipt_digest"@, JsonModel::Str(original_digest@)));
        let e4 = e3.push(("original_receipt_ref"@, JsonModel::Str(original_ref@)));
        lemma_entries_text_push(e0, "history"@, h);
        lemma_entries_text_push(e1, "money_movement_id"@, JsonModel::Str(money_movement_id@));
        lemma_entries_text_push(e2, "original_receipt_digest"@, JsonModel::Str(original_digest@));
        lemma_entries_text_push(e3, "original_receipt_ref"@, JsonModel::Str(original_ref@));
        lemma_entries_text_push(e4, "provider_proof_ref"@, JsonModel::Str(provider_proof_ref@));
        assert(entries_text(e0) == Some(Seq::<char>::empty()));
        assert(Seq::<char>::empty() + json_string_literal("history"@) + ":"@ + hist@ =~= json_string_literal(
            "history"@,
        ) + ":"@ + hist@);
    }
    let mut r = "{".to_owned();
    r.append(body.as_str());
    r.append("}");
    r
}

/// The references of the refunds, in order.
pub open spec fn entry_refs(e: Seq<(Seq<char>, Seq<char>, nat)>) -> Seq<Seq<char>> {
    e.map_values(|x: (Seq<char>, Seq<char>, nat)| x.0)
}

/// The refund proof of an original payment receipt, given the receipts of
/// the store: the original must be a closed, sealed charge (not a refund),
/// and every refund recorded against it must be verified.
pub fn resolve_refund_proof(original: &PaymentReceipt, receipts: &Vec<PaymentReceipt>) -> (r: Result<
    VerifiedRefundProof,
    String,
>)
    ensures
        match projection_spec(*original, AuthorityVerb::Commit) {
            Err(e) => r matches Err(x) && x@ == e,
            Ok(p) => if p.operation == REFUND_OPERATION@ {
                r matches Err(x) && x@ == "original payment receipt must describe a charge, not another refund"@
            } else {
                match history_spec(receipts@, original.id@, p) {
                    Err(e) => r matches Err(x) && x@ == e,
                    Ok((sum, entries)) => r matches Ok(proof) && {
                        &&& proof.charge.money_movement_id@ == p.money_movement_id
                        &&& proof.charge.rail@ == p.rail
                        &&& proof.charge.amount_minor == p.amount_minor
                        &&& proof.charge.refunded_minor == sum
                        &&& proof.charge.currency@ == p.currency
                        &&& proof.charge.payer_ref@ == p.counterparty
                        &&& proof.charge.proof_ref@ == p.proof_ref
                        &&& exists|sorted: Seq<(Seq<char>, Seq<char>, nat)>|
                            sorted.to_multiset() == entries.to_multiset() && sorted_by_receipt(sorted)
                                && crate::text::string_views(proof.history_receipt_refs@) == entry_refs(sorted)
                                && #[trigger] proof.proof_digest@ == "sha256:"@ + crate::package_source::hex_lower(
                                crate::package_source::sha256_digest(
                                    refund_proof_json(original.id@, original.digest@, p.money_movement_id, p.proof_ref, sorted),
                                ),
                            )
                    },
                }
            },
        },
{
    let projection = match payment_projection(original, AuthorityVerb::Commit) {
        Ok(p) => p,
        Err(e) => {
            return Err(e);
        },
    };
    if str_eq(projection.operation.as_str(), REFUND_OPERATION) {
        return Err("original payment receipt must describe a charge, not another refund".to_owned());
    }
    let history = match verified_refund_history(receipts, original, &projection) {
        Ok(h) => h,
        Err(e) => {
            return Err(e);
        },
    };
    let text = refund_proof_text(
        original.id.as_str(),
        original.digest.as_str(),
        projection.money_movement_id.as_str(),
        projection.proof_ref.as_str(),
        &history.entries,
    );
    let proof_digest = crate::package_source::sha256_prefixed(text.as_str().as_bytes());
    let mut refs: Vec<String> = Vec::new();
    let mut i: usize = 0;
    while i < history.entries.len()
        invariant
            i <= history.entries@.len(),
            crate::text::string_views(refs@) == entry_refs(entries_view(history.entries@)).subrange(0, i as int),
        decreases history.entries.len() - i,
    {
        let ghost before = crate::text::string_views(refs@);
        refs.push(history.entries[i].0.clone());
        assert(entries_view(history.entries@)[i as int] == entry_view(history.entries@[i as int]));
        assert(entry_refs(entries_view(history.entries@))[i as int] == history.entries@[i as int].0@);
        assert(crate::text::string_views(refs@) =~= before.push(history.entries@[i as int].0@));
        assert(crate::text::string_views(refs@) =~= entry_refs(entries_view(history.entries@)).subrange(0, i + 1));
        i = i + 1;
    }
    assert(entry_refs(entries_view(history.entries@)).subrange(0, history.entries@.len() as int) =~= entry_refs(
        entries_view(history.entries@),
    ));
    let ghost sorted = entries_view(history.entries@);
    assert(proof_digest@ == "sha256:"@ + crate::package_source::hex_lower(
        crate::package_source::sha256_digest(
            refund_proof_json(original.id@, original.digest@, projection.money_movement_id@, projection.proof_ref@, sorted),
        ),
    ));
    Ok(
        VerifiedRefundProof {
            charge: RefundableCharge {
                money_movement_id: projection.money_movement_id,
                rail: projection.rail,
                amount_minor: projection.amount_minor,
                refunded_minor: history.refunded_minor,
                currency: projection.currency,
                payer_ref: projection.counterparty,
                proof_ref: projection.proof_ref,
            },
            history_receipt_refs: refs,
            proof_digest,
        },
    )
}

} // verus!
