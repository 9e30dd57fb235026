//! Resolution answers that keep each value's authority lane.
//!
//! A caller answers the requests a paused skill run raised. Values given as
//! approvals are human decisions; values given as plain answers are agent
//! answers and never gain approval authority. Continuations merge their
//! answers into the accumulated ones and fail closed on any change to a
//! recorded value, its lane or its request-digest binding.
use vstd::prelude::*;

use crate::json::{
    clone_value, entry_map, has_key, json_eq, lemma_entry_map_prefix, lemma_lookup_at, lookup,
    sorted_keys, JsonModel, JsonObject, JsonValue,
};
use crate::string_set::StringSet;
use crate::text::{concat, is_blank, join, joined, str_eq, string_views, trim_spec};

verus! {

/// Why answers or a continuation were rejected.
#[derive(Debug, PartialEq, Eq)]
pub enum ResolutionError {
    /// An approval that is neither a boolean nor `{approved, reason?}`.
    InvalidApproval(String),
    /// A request answered both as an answer and as an approval.
    DeclaredTwice(String),
    /// A continuation changed a recorded value.
    ChangedResolution(String),
    /// A continuation moved a request between the agent and human lanes.
    ChangedAuthorityLane(String),
    /// A continuation changed a request's digest binding.
    ChangedDigestBinding(String),
    /// Top-level keys beside the nested shape, in key order.
    MixedShape(Vec<String>),
    AnswersNotObject,
    ApprovalsNotObject,
    DigestsNotObject,
    EmptyDigest,
}

/// The text of each error.
pub open spec fn error_text(e: ResolutionError) -> Seq<char> {
    match e {
        ResolutionError::InvalidApproval(id) => "approvals."@ + id@
            + " must be a boolean or {approved: boolean, reason?: string}"@,
        ResolutionError::DeclaredTwice(id) => "request "@ + id@
            + " is declared in both answers and approvals"@,
        ResolutionError::ChangedResolution(id) => "continuation changed the recorded resolution for "@
            + id@,
        ResolutionError::ChangedAuthorityLane(id) =>
            "continuation changed the recorded authority lane for "@ + id@,
        ResolutionError::ChangedDigestBinding(id) =>
            "continuation changed the request digest binding for "@ + id@,
        ResolutionError::MixedShape(keys) => "answers file mixes top-level keys ["@ + joined(
            string_views(keys@),
            ", "@,
        ) + "] with the nested answers/approvals shape"@,
        ResolutionError::AnswersNotObject => "answers field must be a JSON object"@,
        ResolutionError::ApprovalsNotObject => "approvals field must be a JSON object"@,
        ResolutionError::DigestsNotObject => "request_digests field must be a JSON object"@,
        ResolutionError::EmptyDigest => "request_digests values must be non-empty digest strings"@,
    }
}

impl ResolutionError {
    /// The error's message.
    pub fn message(&self) -> (r: String)
        ensures
            r@ == error_text(*self),
    {
        match self {
            ResolutionError::InvalidApproval(id) => {
                let head = concat("approvals.", id.as_str());
                concat(head.as_str(), " must be a boolean or {approved: boolean, reason?: string}")
            },
            ResolutionError::DeclaredTwice(id) => {
                let head = concat("request ", id.as_str());
                concat(head.as_str(), " is declared in both answers and approvals")
            },
            ResolutionError::ChangedResolution(id) => {
                concat("continuation changed the recorded resolution for ", id.as_str())
            },
            ResolutionError::ChangedAuthorityLane(id) => {
                concat("continuation changed the recorded authority lane for ", id.as_str())
            },
            ResolutionError::ChangedDigestBinding(id) => {
                concat("continuation changed the request digest binding for ", id.as_str())
            },
            ResolutionError::MixedShape(keys) => {
                let list = join(keys, ", ");
                let head = concat("answers file mixes top-level keys [", list.as_str());
                concat(head.as_str(), "] with the nested answers/approvals shape")
            },
            ResolutionError::AnswersNotObject => "answers field must be a JSON object".to_owned(),
            ResolutionError::ApprovalsNotObject => "approvals field must be a JSON object".to_owned(),
            ResolutionError::DigestsNotObject => {
                "request_digests field must be a JSON object".to_owned()
            },
            ResolutionError::EmptyDigest => {
                "request_digests values must be non-empty digest strings".to_owned()
            },
        }
    }
}

// ---------------------------------------------------------------------------
// Model
// ---------------------------------------------------------------------------
/// The abstract state of resolution answers.
pub struct AnswersModel {
    pub values: Map<Seq<char>, JsonModel>,
    pub human: Set<Seq<char>>,
    pub digests: Map<Seq<char>, Seq<char>>,
    pub bound: Set<Seq<char>>,
}

/// A human decision: a boolean, or an object with a boolean `approved`, an
/// optional non-blank `reason`, and no other key.
pub open spec fn approval_payload(v: JsonModel) -> bool {
    match v {
        JsonModel::Bool(_) => true,
        JsonModel::Object(e) => {
            &&& lookup(e, "approved"@) matches Some(JsonModel::Bool(_))
            &&& forall|i: int|
                0 <= i < e.len() ==> #[trigger] e[i].0 == "approved"@ || e[i].0 == "reason"@
            &&& match lookup(e, "reason"@) {
                None => true,
                Some(JsonModel::Str(reason)) => trim_spec(reason).len() > 0,
                Some(_) => false,
            }
        },
        _ => false,
    }
}

/// Why an approval lane was rejected.
pub enum LaneFailure {
    NotApproval(Seq<char>),
    Twice(Seq<char>),
}

/// Adds the approvals `a`, in order, to the values and the human lane.
pub open spec fn apply_lanes(
    values: Map<Seq<char>, JsonModel>,
    human: Set<Seq<char>>,
    a: Seq<(Seq<char>, JsonModel)>,
) -> Result<(Map<Seq<char>, JsonModel>, Set<Seq<char>>), LaneFailure>
    decreases a.len(),
{
    if a.len() == 0 {
        Ok((values, human))
    } else if !approval_payload(a[0].1) {
        Err(LaneFailure::NotApproval(a[0].0))
    } else if values.contains_key(a[0].0) {
        Err(LaneFailure::Twice(a[0].0))
    } else {
        apply_lanes(values.insert(a[0].0, a[0].1), human.insert(a[0].0), a.drop_first())
    }
}

pub open spec fn lane_error(e: ResolutionError, f: LaneFailure) -> bool {
    match f {
        LaneFailure::NotApproval(id) => e matches ResolutionError::InvalidApproval(s) && s@ == id,
        LaneFailure::Twice(id) => e matches ResolutionError::DeclaredTwice(s) && s@ == id,
    }
}

/// The key/value views of owned pairs.
pub open spec fn pairs_model(p: Seq<(String, JsonValue)>) -> Seq<(Seq<char>, JsonModel)> {
    p.map_values(|x: (String, JsonValue)| (x.0@, x.1@))
}

/// `k` is answered on both sides with different values, or in different
/// lanes.
pub open spec fn resolution_conflict(a: AnswersModel, b: AnswersModel, k: Seq<char>) -> bool {
    a.values.contains_key(k) && b.values.contains_key(k) && a.values[k] != b.values[k]
}

pub open spec fn lane_conflict(a: AnswersModel, b: AnswersModel, k: Seq<char>) -> bool {
    a.values.contains_key(k) && b.values.contains_key(k) && a.human.contains(k) != b.human.contains(
        k,
    )
}

pub open spec fn digest_conflict(a: AnswersModel, b: AnswersModel, k: Seq<char>) -> bool {
    a.digests.contains_key(k) && b.digests.contains_key(k) && a.digests[k] != b.digests[k]
}

/// The accumulated answers after a continuation, when nothing recorded
/// changes.
pub open spec fn merge_spec(a: AnswersModel, b: AnswersModel) -> Option<AnswersModel> {
    if exists|k: Seq<char>|
        resolution_conflict(a, b, k) || lane_conflict(a, b, k) || digest_conflict(a, b, k) {
        None
    } else {
        Some(
            AnswersModel {
                values: a.values.union_prefer_right(b.values),
                human: a.human.union(b.human.intersect(b.values.dom())),
                digests: a.digests.union_prefer_right(b.digests),
                bound: a.bound.union(b.bound),
            },
        )
    }
}

/// The digest strings stored in an object of string values.
pub open spec fn digest_map(e: Seq<(Seq<char>, JsonModel)>) -> Map<Seq<char>, Seq<char>> {
    entry_map(e).map_values(|v: JsonModel| v->Str_0)
}

pub open spec fn all_strings(e: Seq<(Seq<char>, JsonModel)>) -> bool {
    forall|i: int| 0 <= i < e.len() ==> #[trigger] e[i].1 is Str
}

/// Resolution values with their authority lane and request-digest bindings.
#[derive(Debug)]
pub struct ResolutionAnswers {
    values: JsonObject,
    human_approvals: StringSet,
    request_digests: JsonObject,
    digest_bound_requests: StringSet,
}

impl ResolutionAnswers {
    #[verifier::type_invariant]
    spec fn wf(self) -> bool {
        all_strings(self.request_digests@)
    }

    pub closed spec fn model(self) -> AnswersModel {
        AnswersModel {
            values: self.values.map(),
            human: self.human_approvals@,
            digests: digest_map(self.request_digests@),
            bound: self.digest_bound_requests@,
        }
    }
}

impl View for ResolutionAnswers {
    type V = AnswersModel;

    open spec fn view(&self) -> AnswersModel {
        self.model()
    }
}

/// Whether `value` is a human decision payload.
pub fn is_human_approval_payload(value: &JsonValue) -> (r: bool)
    ensures
        r == approval_payload(value@),
{
    if let JsonValue::Bool(_) = value {
        return true;
    }
    match value.as_object() {
        None => false,
        Some(object) => {
            let approved = match object.get("approved") {
                Some(JsonValue::Bool(_)) => true,
                _ => false,
            };
            if !approved {
                return false;
            }
            let n = object.len();
            let ghost e = object@;
            let mut i: usize = 0;
            while i < n
                invariant
                    i <= n == e.len(),
                    e == object@,
                    value@ == JsonModel::Object(e),
                    forall|j: int| 0 <= j < i ==> #[trigger] e[j].0 == "approved"@ || e[j].0
                        == "reason"@,
                decreases n - i,
            {
                let (key, _) = object.entry(i);
                if !(str_eq(key.as_str(), "approved") || str_eq(key.as_str(), "reason")) {
                    proof {
                        let k = i as int;
                        assert(!(e[k].0 == "approved"@ || e[k].0 == "reason"@));
                        assert(value@ == JsonModel::Object(e));
                        assert(!(forall|j: int|
                            0 <= j < e.len() ==> #[trigger] e[j].0 == "approved"@ || e[j].0
                                == "reason"@));
                    }
                    return false;
                }
                i = i + 1;
            }
            match object.get("reason") {
                None => true,
                Some(JsonValue::String(reason)) => !is_blank(reason.as_str()),
                Some(_) => false,
            }
        },
    }
}

/// Copies the pairs' views into the values object and the human lane, in
/// order; `values` starts as `base`.
fn add_approvals(
    values: &mut JsonObject,
    human: &mut StringSet,
    approvals: &Vec<(String, JsonValue)>,
) -> (r: Result<(), ResolutionError>)
    ensures
        match (r, apply_lanes(old(values).map(), old(human)@, pairs_model(approvals@))) {
            (Ok(_), Ok((v, h))) => final(values).map() == v && final(human)@ == h,
            (Err(e), Err(f)) => lane_error(e, f),
            _ => false,
        },
{
    let ghost a = pairs_model(approvals@);
    let ghost target = apply_lanes(values.map(), human@, a);
    let mut i: usize = 0;
    assert(a.subrange(0, a.len() as int) =~= a);
    while i < approvals.len()
        invariant
            i <= approvals@.len(),
            a == pairs_model(approvals@),
            target == apply_lanes(values.map(), human@, a.subrange(i as int, a.len() as int)),
            target == apply_lanes(old(values).map(), old(human)@, a),
        decreases approvals.len() - i,
    {
        let ghost rest = a.subrange(i as int, a.len() as int);
        assert(rest.drop_first() =~= a.subrange(i + 1, a.len() as int));
        let (gate_id, decision) = &approvals[i];
        if !is_human_approval_payload(decision) {
            return Err(ResolutionError::InvalidApproval(gate_id.clone()));
        }
        let prior = values.insert(gate_id.clone(), clone_value(decision));
        match prior {
            Some(_) => {
                return Err(ResolutionError::DeclaredTwice(gate_id.clone()));
            },
            None => {},
        }
        human.insert(gate_id.clone());
        i = i + 1;
    }
    assert(a.subrange(a.len() as int, a.len() as int) =~= Seq::<(Seq<char>, JsonModel)>::empty());
    Ok(())
}

impl ResolutionAnswers {
    /// Agent answers only: no human lane and no digest binding.
    pub fn agent(values: JsonObject) -> (r: Self)
        ensures
            r@ == (AnswersModel {
                values: values.map(),
                human: Set::empty(),
                digests: Map::empty(),
                bound: Set::empty(),
            }),
    {
        let digests = JsonObject::new();
        let r = ResolutionAnswers {
            values,
            human_approvals: StringSet::new(),
            request_digests: digests,
            digest_bound_requests: StringSet::new(),
        };
        assert(r@.digests =~= Map::<Seq<char>, Seq<char>>::empty());
        r
    }

    /// Agent answers plus human approvals; an approval must be a decision
    /// payload and may not repeat a request already answered.
    pub fn from_lanes(answers: JsonObject, approvals: Vec<(String, JsonValue)>) -> (r: Result<
        Self,
        ResolutionError,
    >)
        ensures
            match (r, apply_lanes(answers.map(), Set::empty(), pairs_model(approvals@))) {
                (Ok(a), Ok((v, h))) => a@ == (AnswersModel {
                    values: v,
                    human: h,
                    digests: Map::empty(),
                    bound: Set::empty(),
                }),
                (Err(e), Err(f)) => lane_error(e, f),
                _ => false,
            },
    {
        let mut values = answers;
        let mut human = StringSet::new();
        match add_approvals(&mut values, &mut human, &approvals) {
            Ok(()) => {},
            Err(e) => {
                return Err(e);
            },
        }
        let r = ResolutionAnswers {
            values,
            human_approvals: human,
            request_digests: JsonObject::new(),
            digest_bound_requests: StringSet::new(),
        };
        assert(r@.digests =~= Map::<Seq<char>, Seq<char>>::empty());
        Ok(r)
    }

    /// The recorded value for a request.
    pub fn get(&self, request_id: &str) -> (r: Option<&JsonValue>)
        ensures
            r matches Some(v) ==> self@.values.contains_key(request_id@) && self@.values[request_id@]
                == v@,
            r is None ==> !self@.values.contains_key(request_id@),
    {
        self.values.get(request_id)
    }

    /// Whether the request was answered in the human approval lane.
    pub fn is_human_approval(&self, request_id: &str) -> (r: bool)
        ensures
            r == self@.human.contains(request_id@),
    {
        self.human_approvals.contains(request_id)
    }

    /// The digest the request is bound to, if any.
    pub fn request_digest(&self, request_id: &str) -> (r: Option<&str>)
        ensures
            r matches Some(d) ==> self@.digests.contains_key(request_id@) && self@.digests[request_id@]
                == d@,
            r is None ==> !self@.digests.contains_key(request_id@),
    {
        proof {
            use_type_invariant(self);
        }
        let n = self.request_digests.len();
        match self.request_digests.get(request_id) {
            Some(JsonValue::String(d)) => Some(d.as_str()),
            Some(_) => {
                proof {
                    let e = self.request_digests@;
                    let j = choose|j: int| 0 <= j < e.len() && #[trigger] e[j].0 == request_id@;
                    lemma_lookup_at(e, j);
                }
                None
            },
            None => None,
        }
    }

    /// Whether answering the request must present its request digest.
    pub fn requires_request_digest(&self, request_id: &str) -> (r: bool)
        ensures
            r == self@.bound.contains(request_id@),
    {
        self.digest_bound_requests.contains(request_id)
    }
}

/// An object holds only strings exactly when its map does.
proof fn lemma_all_strings_map(e: Seq<(Seq<char>, JsonModel)>)
    requires
        sorted_keys(e),
    ensures
        all_strings(e) <==> (forall|k: Seq<char>|
            #[trigger] entry_map(e).contains_key(k) ==> entry_map(e)[k] is Str),
{
    if all_strings(e) {
        assert forall|k: Seq<char>| #[trigger] entry_map(e).contains_key(k) implies entry_map(
            e,
        )[k] is Str by {
            let j = choose|j: int| 0 <= j < e.len() && #[trigger] e[j].0 == k;
            lemma_lookup_at(e, j);
        }
    }
    if forall|k: Seq<char>| #[trigger] entry_map(e).contains_key(k) ==> entry_map(e)[k] is Str {
        assert forall|i: int| 0 <= i < e.len() implies #[trigger] e[i].1 is Str by {
            lemma_lookup_at(e, i);
            assert(entry_map(e).contains_key(e[i].0));
        }
    }
}

impl ResolutionAnswers {
    /// Carries answers across a continuation: adds what `incoming` holds and
    /// fails on any change to a recorded value, lane or digest binding. The
    /// first change in request order is reported.
    pub fn merge(&mut self, incoming: Self) -> (r: Result<(), ResolutionError>)
        ensures
            r is Ok <==> merge_spec(old(self)@, incoming@) is Some,
            r is Ok ==> final(self)@ == merge_spec(old(self)@, incoming@)->0,
            r matches Err(e) ==> match e {
                ResolutionError::ChangedResolution(k) => resolution_conflict(
                    old(self)@,
                    incoming@,
                    k@,
                ),
                ResolutionError::ChangedAuthorityLane(k) => lane_conflict(old(self)@, incoming@, k@),
                ResolutionError::ChangedDigestBinding(k) => digest_conflict(
                    old(self)@,
                    incoming@,
                    k@,
                ),
                _ => false,
            },
    {
        proof {
            use_type_invariant(&*self);
            use_type_invariant(&incoming);
        }
        let ghost a = self@;
        let ghost b = incoming@;
        let n = incoming.values.len();
        let ghost be = incoming.values@;
        let mut values = JsonObject::new();
        std::mem::swap(&mut values, &mut self.values);
        let mut human = StringSet::new();
        std::mem::swap(&mut human, &mut self.human_approvals);
        let mut i: usize = 0;
        assert(values.map() =~= a.values.union_prefer_right(entry_map(be.subrange(0, 0))));
        assert(human@ =~= a.human.union(b.human.intersect(entry_map(be.subrange(0, 0)).dom())));
        while i < n
            invariant
                i <= n == be.len(),
                be == incoming.values@,
                sorted_keys(be),
                b == incoming@,
                a == old(self)@,
                self.request_digests == old(self).request_digests,
                all_strings(self.request_digests@),
                self.digest_bound_requests == old(self).digest_bound_requests,
                values.map() == a.values.union_prefer_right(entry_map(be.subrange(0, i as int))),
                human@ == a.human.union(
                    b.human.intersect(entry_map(be.subrange(0, i as int)).dom()),
                ),
                forall|k: Seq<char>|
                    #[trigger] entry_map(be.subrange(0, i as int)).contains_key(k) ==> !resolution_conflict(a, b, k)
                        && !lane_conflict(a, b, k),
            decreases n - i,
        {
            let (id, value) = incoming.values.entry(i);
            let ghost k = id@;
            proof {
                lemma_entry_map_prefix(be, i as int);
                lemma_lookup_at(be, i as int);
                assert(b.values.contains_key(k) && b.values[k] == value@);
            }
            let had = values.contains_key(id.as_str());
            proof {
                assert(!entry_map(be.subrange(0, i as int)).contains_key(k));
                assert(had == values.map().contains_key(k));
                assert(had == a.values.contains_key(k));
            }
            let ghost human_before = human@;
            match values.get(id.as_str()) {
                Some(existing) => {
                    if !json_eq(existing, value) {
                        proof {
                            assert(values.map().contains_key(k));
                            assert(values.map()[k] == existing@);
                            assert(a.values.contains_key(k));
                            assert(a.values[k] == existing@);
                        }
                        assert(resolution_conflict(a, b, k));
                        self.values = values;
                        self.human_approvals = human;
                        return Err(ResolutionError::ChangedResolution(id.clone()));
                    }
                    proof {
                        assert(values.map()[k] == existing@);
                        assert(a.values[k] == b.values[k]);
                    }
                },
                None => {
                    assert(!a.values.contains_key(k));
                    values.insert(id.clone(), clone_value(value));
                },
            }
            let existing_is_human = human.contains(id.as_str());
            let incoming_is_human = incoming.human_approvals.contains(id.as_str());
            if had && existing_is_human != incoming_is_human {
                assert(human_before.contains(k) == a.human.contains(k));
                assert(lane_conflict(a, b, k));
                self.values = values;
                self.human_approvals = human;
                return Err(ResolutionError::ChangedAuthorityLane(id.clone()));
            }
            if incoming_is_human {
                human.insert(id.clone());
            }
            proof {
                let p1 = entry_map(be.subrange(0, i + 1));
                assert(!resolution_conflict(a, b, k));
                assert(human_before.contains(k) == a.human.contains(k));
                assert(!lane_conflict(a, b, k));
                assert forall|x: Seq<char>| #[trigger] p1.contains_key(x) implies !resolution_conflict(
                    a,
                    b,
                    x,
                ) && !lane_conflict(a, b, x) by {
                    if x != k {
                        assert(entry_map(be.subrange(0, i as int)).contains_key(x));
                    }
                }
                assert(values.map() =~= a.values.union_prefer_right(p1));
                assert(human@ =~= a.human.union(b.human.intersect(p1.dom())));
            }
            i = i + 1;
        }
        assert(be.subrange(0, n as int) =~= be);
        self.values = values;
        self.human_approvals = human;
        let m = incoming.request_digests.len();
        let ghost de = incoming.request_digests@;
        let mut digests = JsonObject::new();
        std::mem::swap(&mut digests, &mut self.request_digests);
        let mut j: usize = 0;
        assert(digest_map(digests@) =~= a.digests.union_prefer_right(digest_map(de.subrange(0, 0))));
        while j < m
            invariant
                j <= m == de.len(),
                de == incoming.request_digests@,
                sorted_keys(de),
                all_strings(de),
                b == incoming@,
                a == old(self)@,
                all_strings(digests@),
                self.values.map() == a.values.union_prefer_right(b.values),
                self.human_approvals@ == a.human.union(b.human.intersect(b.values.dom())),
                self.digest_bound_requests == old(self).digest_bound_requests,
                digest_map(digests@) == a.digests.union_prefer_right(
                    digest_map(de.subrange(0, j as int)),
                ),
                forall|k: Seq<char>|
                    #[trigger] entry_map(de.subrange(0, j as int)).contains_key(k)
                        ==> !digest_conflict(a, b, k),
            decreases m - j,
        {
            let (id, d) = incoming.request_digests.entry(j);
            let ghost k = id@;
            let len_before = digests.len();
            let ghost dm_before = digest_map(digests@);
            proof {
                lemma_entry_map_prefix(de, j as int);
                lemma_lookup_at(de, j as int);
                lemma_all_strings_map(digests@);
                lemma_all_strings_map(de);
                assert(de[j as int].1 is Str);
                assert(b.digests.contains_key(k));
                assert(b.digests[k] == d@->Str_0);
                assert(!entry_map(de.subrange(0, j as int)).contains_key(k));
                assert(!digest_map(de.subrange(0, j as int)).contains_key(k));
            }
            match digests.get(id.as_str()) {
                Some(existing) => {
                    if !json_eq(existing, d) {
                        proof {
                            assert(entry_map(digests@).contains_key(k));
                            assert(entry_map(digests@)[k] == existing@);
                            assert(existing@ is Str);
                            assert(digest_map(digests@)[k] == existing@->Str_0);
                            assert(digest_map(digests@).contains_key(k));
                            assert(a.digests.contains_key(k));
                            assert(a.digests[k] == existing@->Str_0);
                            assert(digest_conflict(a, b, k));
                        }
                        self.request_digests = digests;
                        return Err(ResolutionError::ChangedDigestBinding(id.clone()));
                    }
                    proof {
                        assert(entry_map(digests@)[k] == existing@);
                        assert(existing@ is Str);
                        assert(digest_map(digests@).contains_key(k));
                        assert(digest_map(digests@)[k] == existing@->Str_0);
                        assert(a.digests.contains_key(k));
                        assert(a.digests[k] == b.digests[k]);
                    }
                },
                None => {
                    assert(!digest_map(digests@).contains_key(k));
                    assert(!a.digests.contains_key(k));
                    digests.insert(id.clone(), clone_value(d));
                },
            }
            let len_after = digests.len();
            proof {
                lemma_all_strings_map(digests@);
                let p1 = de.subrange(0, j + 1);
                assert(!digest_conflict(a, b, k));
                assert forall|x: Seq<char>| #[trigger] entry_map(p1).contains_key(x) implies !digest_conflict(
                    a,
                    b,
                    x,
                ) by {
                    if x != k {
                        assert(entry_map(de.subrange(0, j as int)).contains_key(x));
                    }
                }
                assert(digest_map(p1) =~= digest_map(de.subrange(0, j as int)).insert(
                    k,
                    b.digests[k],
                ));
                assert(digest_map(digests@) =~= dm_before.insert(k, b.digests[k]));
                assert(digest_map(digests@) =~= a.digests.union_prefer_right(digest_map(p1)));
            }
            j = j + 1;
        }
        assert(de.subrange(0, m as int) =~= de);
        self.request_digests = digests;
        let mut bound = StringSet::new();
        std::mem::swap(&mut bound, &mut self.digest_bound_requests);
        bound.extend(&incoming.digest_bound_requests);
        self.digest_bound_requests = bound;
        proof {
            assert(!(exists|k: Seq<char>|
                resolution_conflict(a, b, k) || lane_conflict(a, b, k) || digest_conflict(a, b, k)))
                by {
                assert forall|k: Seq<char>|
                    !(resolution_conflict(a, b, k) || lane_conflict(a, b, k) || digest_conflict(
                        a,
                        b,
                        k,
                    )) by {
                    if b.values.contains_key(k) {
                        assert(entry_map(be.subrange(0, n as int)).contains_key(k));
                    }
                    if b.digests.contains_key(k) {
                        assert(entry_map(de.subrange(0, m as int)).contains_key(k));
                    }
                }
            }
            assert(entry_map(be.subrange(0, n as int)) == b.values);
            assert(self@.values =~= merge_spec(a, b)->0.values);
            assert(self@.digests =~= merge_spec(a, b)->0.digests);
        }
        Ok(())
    }
}

// ---------------------------------------------------------------------------
// Answers files
// ---------------------------------------------------------------------------
/// The keys of the nested shape; graph runs know no digest bindings.
pub open spec fn nested_key(k: Seq<char>, with_digests: bool) -> bool {
    k == "answers"@ || k == "approvals"@ || (with_digests && k == "request_digests"@)
}

/// The keys of `e` outside the nested shape, in order.
pub open spec fn extra_keys(e: Seq<(Seq<char>, JsonModel)>, with_digests: bool) -> Seq<Seq<char>>
    decreases e.len(),
{
    if e.len() == 0 {
        Seq::empty()
    } else if nested_key(e.last().0, with_digests) {
        extra_keys(e.drop_last(), with_digests)
    } else {
        extra_keys(e.drop_last(), with_digests).push(e.last().0)
    }
}

/// Why an answers file was rejected.
pub enum NormalizeFailure {
    Mixed(Seq<Seq<char>>),
    AnswersNotObject,
    ApprovalsNotObject,
    DigestsNotObject,
    EmptyDigest,
    Lane(LaneFailure),
}

pub open spec fn normalize_error(e: ResolutionError, f: NormalizeFailure) -> bool {
    match f {
        NormalizeFailure::Mixed(keys) => e matches ResolutionError::MixedShape(v) && string_views(
            v@,
        ) == keys,
        NormalizeFailure::AnswersNotObject => e is AnswersNotObject,
        NormalizeFailure::ApprovalsNotObject => e is ApprovalsNotObject,
        NormalizeFailure::DigestsNotObject => e is DigestsNotObject,
        NormalizeFailure::EmptyDigest => e is EmptyDigest,
        NormalizeFailure::Lane(l) => lane_error(e, l),
    }
}

/// The object under `key`: absent is empty, another kind of value fails.
pub open spec fn object_field(e: Seq<(Seq<char>, JsonModel)>, key: Seq<char>) -> Option<
    Option<Seq<(Seq<char>, JsonModel)>>,
> {
    match lookup(e, key) {
        None => Some(Some(Seq::empty())),
        Some(JsonModel::Object(o)) => Some(Some(o)),
        Some(_) => None,
    }
}

/// Every digest is a string that is not blank.
pub open spec fn digests_valid(d: Seq<(Seq<char>, JsonModel)>) -> bool {
    forall|i: int|
        0 <= i < d.len() ==> #[trigger] d[i].1 is Str && trim_spec(d[i].1->Str_0).len() > 0
}

/// What an answers-file object means. A flat object holds agent answers;
/// the nested shape (`answers`, `approvals` and, with digests,
/// `request_digests`) may hold nothing else.
pub open spec fn normalize_spec(e: Seq<(Seq<char>, JsonModel)>, with_digests: bool) -> Result<
    AnswersModel,
    NormalizeFailure,
> {
    let nested = has_key(e, "answers"@) || has_key(e, "approvals"@) || (with_digests && has_key(
        e,
        "request_digests"@,
    ));
    if !nested {
        Ok(
            AnswersModel {
                values: entry_map(e),
                human: Set::empty(),
                digests: Map::empty(),
                bound: Set::empty(),
            },
        )
    } else if extra_keys(e, with_digests).len() > 0 {
        Err(NormalizeFailure::Mixed(extra_keys(e, with_digests)))
    } else if object_field(e, "answers"@) is None {
        Err(NormalizeFailure::AnswersNotObject)
    } else if object_field(e, "approvals"@) is None {
        Err(NormalizeFailure::ApprovalsNotObject)
    } else if with_digests && object_field(e, "request_digests"@) is None {
        Err(NormalizeFailure::DigestsNotObject)
    } else {
        let answers = object_field(e, "answers"@)->0->0;
        let approvals = object_field(e, "approvals"@)->0->0;
        let digests = if with_digests {
            object_field(e, "request_digests"@)->0->0
        } else {
            Seq::empty()
        };
        if !digests_valid(digests) {
            Err(NormalizeFailure::EmptyDigest)
        } else {
            match apply_lanes(entry_map(answers), Set::empty(), approvals) {
                Err(l) => Err(NormalizeFailure::Lane(l)),
                Ok((v, h)) => Ok(
                    AnswersModel {
                        values: v,
                        human: h,
                        digests: digest_map(digests),
                        bound: if digests.len() > 0 {
                            v.dom()
                        } else {
                            Set::empty()
                        },
                    },
                ),
            }
        }
    }
}

/// The entries of an object as owned pairs, in key order.
fn object_pairs(o: &JsonObject) -> (r: Vec<(String, JsonValue)>)
    ensures
        pairs_model(r@) == o@,
{
    let n = o.len();
    let mut r: Vec<(String, JsonValue)> = Vec::new();
    let mut i: usize = 0;
    while i < n
        invariant
            i <= n == o@.len(),
            pairs_model(r@) == o@.subrange(0, i as int),
        decreases n - i,
    {
        let (k, v) = o.entry(i);
        let key = k.clone();
        let value = clone_value(v);
        assert(key@ == o@[i as int].0 && value@ == o@[i as int].1);
        let ghost before = r@;
        r.push((key, value));
        assert(r@ == before.push((key, value)));
        assert(pairs_model(r@) =~= pairs_model(before).push((key@, value@)));
        assert(pairs_model(r@) =~= o@.subrange(0, i + 1));
        i = i + 1;
    }
    assert(o@.subrange(0, n as int) =~= o@);
    r
}

/// The keys of `o` beside the nested shape, in key order.
fn nested_extras(o: &JsonObject, with_digests: bool) -> (r: Vec<String>)
    ensures
        string_views(r@) == extra_keys(o@, with_digests),
{
    let n = o.len();
    let mut r: Vec<String> = Vec::new();
    let mut i: usize = 0;
    while i < n
        invariant
            i <= n == o@.len(),
            string_views(r@) == extra_keys(o@.subrange(0, i as int), with_digests),
        decreases n - i,
    {
        let (k, _) = o.entry(i);
        let ghost p = o@.subrange(0, i + 1);
        assert(p.drop_last() =~= o@.subrange(0, i as int));
        let nested = str_eq(k.as_str(), "answers") || str_eq(k.as_str(), "approvals") || (
        with_digests && str_eq(k.as_str(), "request_digests"));
        if !nested {
            r.push(k.clone());
        }
        assert(string_views(r@) =~= extra_keys(p, with_digests));
        i = i + 1;
    }
    assert(o@.subrange(0, n as int) =~= o@);
    r
}

/// The object under `key` (empty when absent), or `None` when it holds
/// another kind of value.
fn object_field_of(o: &JsonObject, key: &str) -> (r: Option<JsonObject>)
    ensures
        match object_field(o@, key@) {
            None => r is None,
            Some(f) => r matches Some(x) && x@ == f->0,
        },
{
    match o.get(key) {
        None => Some(JsonObject::new()),
        Some(v) => match v.as_object() {
            Some(inner) => Some(inner.clone()),
            None => None,
        },
    }
}

/// Whether every digest is a non-blank string.
fn check_digests(d: &JsonObject) -> (r: bool)
    ensures
        r == digests_valid(d@),
{
    let n = d.len();
    let mut i: usize = 0;
    while i < n
        invariant
            i <= n == d@.len(),
            forall|j: int|
                0 <= j < i ==> #[trigger] d@[j].1 is Str && trim_spec(d@[j].1->Str_0).len() > 0,
        decreases n - i,
    {
        let (_, v) = d.entry(i);
        match v {
            JsonValue::String(text) => {
                if is_blank(text.as_str()) {
                    return false;
                }
            },
            _ => {
                return false;
            },
        }
        i = i + 1;
    }
    true
}

/// The keys of `o` as a set.
fn key_set(o: &JsonObject) -> (r: StringSet)
    ensures
        r@ == o.map().dom(),
{
    let n = o.len();
    let mut r = StringSet::new();
    let mut i: usize = 0;
    assert(entry_map(o@.subrange(0, 0)).dom() =~= Set::<Seq<char>>::empty());
    while i < n
        invariant
            i <= n == o@.len(),
            sorted_keys(o@),
            r@ == entry_map(o@.subrange(0, i as int)).dom(),
        decreases n - i,
    {
        let (k, _) = o.entry(i);
        proof {
            lemma_entry_map_prefix(o@, i as int);
        }
        r.insert(k.clone());
        assert(r@ =~= entry_map(o@.subrange(0, i + 1)).dom());
        i = i + 1;
    }
    assert(o@.subrange(0, n as int) =~= o@);
    r
}

/// The parts of a nested-shape object: answers, approvals and digests.
fn nested_parts(object: &JsonObject, with_digests: bool) -> (r: Result<
    (JsonObject, JsonObject, JsonObject),
    ResolutionError,
>)
    requires
        extra_keys(object@, with_digests).len() == 0,
    ensures
        match r {
            Ok((a, p, d)) => object_field(object@, "answers"@) == Some(Some(a@)) && object_field(
                object@,
                "approvals"@,
            ) == Some(Some(p@)) && (with_digests ==> object_field(object@, "request_digests"@)
                == Some(Some(d@))) && (!with_digests ==> d@ == Seq::<
                (Seq<char>, JsonModel),
            >::empty()),
            Err(e) => {
                ||| object_field(object@, "answers"@) is None && e is AnswersNotObject
                ||| object_field(object@, "answers"@) is Some && object_field(
                    object@,
                    "approvals"@,
                ) is None && e is ApprovalsNotObject
                ||| object_field(object@, "answers"@) is Some && object_field(
                    object@,
                    "approvals"@,
                ) is Some && with_digests && object_field(object@, "request_digests"@) is None
                    && e is DigestsNotObject
            },
        },
{
    let answers = match object_field_of(object, "answers") {
        Some(a) => a,
        None => {
            return Err(ResolutionError::AnswersNotObject);
        },
    };
    let approvals = match object_field_of(object, "approvals") {
        Some(a) => a,
        None => {
            return Err(ResolutionError::ApprovalsNotObject);
        },
    };
    let digests = if with_digests {
        match object_field_of(object, "request_digests") {
            Some(d) => d,
            None => {
                return Err(ResolutionError::DigestsNotObject);
            },
        }
    } else {
        JsonObject::new()
    };
    Ok((answers, approvals, digests))
}

/// Reads the object of an answers file into resolution answers.
pub fn normalize_answers(object: JsonObject) -> (r: Result<ResolutionAnswers, ResolutionError>)
    ensures
        match (r, normalize_spec(object@, true)) {
            (Ok(a), Ok(m)) => a@ == m,
            (Err(e), Err(f)) => normalize_error(e, f),
            _ => false,
        },
{
    let nested = object.contains_key("answers") || object.contains_key("approvals")
        || object.contains_key("request_digests");
    if !nested {
        return Ok(ResolutionAnswers::agent(object));
    }
    let extra = nested_extras(&object, true);
    if extra.len() > 0 {
        return Err(ResolutionError::MixedShape(extra));
    }
    let (answers, approvals, digests) = match nested_parts(&object, true) {
        Ok(parts) => parts,
        Err(e) => {
            return Err(e);
        },
    };
    if !check_digests(&digests) {
        return Err(ResolutionError::EmptyDigest);
    }
    let pairs = object_pairs(&approvals);
    let mut resolved = match ResolutionAnswers::from_lanes(answers, pairs) {
        Ok(a) => a,
        Err(e) => {
            return Err(e);
        },
    };
    let bound = if digests.len() > 0 {
        key_set(&resolved.values)
    } else {
        StringSet::new()
    };
    proof {
        let d = digests@;
        assert forall|i: int| 0 <= i < d.len() implies #[trigger] d[i].1 is Str by {
            assert(d[i].1 is Str && trim_spec(d[i].1->Str_0).len() > 0);
        }
    }
    let r = ResolutionAnswers {
        values: resolved.values,
        human_approvals: resolved.human_approvals,
        request_digests: digests,
        digest_bound_requests: bound,
    };
    Ok(r)
}

/// Answers of a graph run: values and their human lane.
#[derive(Debug)]
pub struct GraphResolutionAnswers {
    values: JsonObject,
    human_approvals: StringSet,
}

impl GraphResolutionAnswers {
    pub closed spec fn values_map(self) -> Map<Seq<char>, JsonModel> {
        self.values.map()
    }

    pub closed spec fn human_set(self) -> Set<Seq<char>> {
        self.human_approvals@
    }

    /// Agent answers only.
    pub fn agent(values: JsonObject) -> (r: Self)
        ensures
            r.values_map() == values.map(),
            r.human_set() == Set::<Seq<char>>::empty(),
    {
        GraphResolutionAnswers { values, human_approvals: StringSet::new() }
    }

    /// The recorded value for a request.
    pub fn get(&self, request_id: &str) -> (r: Option<&JsonValue>)
        ensures
            r matches Some(v) ==> self.values_map().contains_key(request_id@)
                && self.values_map()[request_id@] == v@,
            r is None ==> !self.values_map().contains_key(request_id@),
    {
        self.values.get(request_id)
    }

    /// Whether the request was answered in the human approval lane.
    pub fn is_human_approval(&self, request_id: &str) -> (r: bool)
        ensures
            r == self.human_set().contains(request_id@),
    {
        self.human_approvals.contains(request_id)
    }
}

/// Reads the object of a graph run's answers file.
pub fn normalize_graph_answers(object: JsonObject) -> (r: Result<
    GraphResolutionAnswers,
    ResolutionError,
>)
    ensures
        match (r, normalize_spec(object@, false)) {
            (Ok(a), Ok(m)) => a.values_map() == m.values && a.human_set() == m.human,
            (Err(e), Err(f)) => normalize_error(e, f),
            _ => false,
        },
{
    let nested = object.contains_key("answers") || object.contains_key("approvals");
    if !nested {
        return Ok(GraphResolutionAnswers::agent(object));
    }
    let extra = nested_extras(&object, false);
    if extra.len() > 0 {
        return Err(ResolutionError::MixedShape(extra));
    }
    let (mut answers, approvals, _none) = match nested_parts(&object, false) {
        Ok(parts) => parts,
        Err(e) => {
            return Err(e);
        },
    };
    let pairs = object_pairs(&approvals);
    let mut human = StringSet::new();
    match add_approvals(&mut answers, &mut human, &pairs) {
        Ok(()) => {},
        Err(e) => {
            return Err(e);
        },
    }
    Ok(GraphResolutionAnswers { values: answers, human_approvals: human })
}

// ---------------------------------------------------------------------------
// Laws
// ---------------------------------------------------------------------------
/// Every request in the human lane carries a value.
pub open spec fn lanes_wf(a: AnswersModel) -> bool {
    a.human.subset_of(a.values.dom())
}

/// A continuation keeps every recorded resolution with its lane and digest
/// binding, and takes the continuation's own answers with their lanes.
pub proof fn lemma_merge_retains(a: AnswersModel, b: AnswersModel)
    requires
        merge_spec(a, b) is Some,
        lanes_wf(a),
        lanes_wf(b),
    ensures
        forall|k: Seq<char>| #[trigger]
            a.values.contains_key(k) ==> merge_spec(a, b)->0.values.contains_key(k) && merge_spec(
                a,
                b,
            )->0.values[k] == a.values[k] && (merge_spec(a, b)->0.human.contains(k)
                == a.human.contains(k)),
        forall|k: Seq<char>| #[trigger]
            b.values.contains_key(k) ==> merge_spec(a, b)->0.values.contains_key(k) && merge_spec(
                a,
                b,
            )->0.values[k] == b.values[k] && (merge_spec(a, b)->0.human.contains(k)
                == b.human.contains(k)),
        forall|k: Seq<char>| #[trigger]
            a.digests.contains_key(k) ==> merge_spec(a, b)->0.digests.contains_key(k) && merge_spec(
                a,
                b,
            )->0.digests[k] == a.digests[k],
        a.bound.subset_of(merge_spec(a, b)->0.bound),
        lanes_wf(merge_spec(a, b)->0),
{
    let c = merge_spec(a, b)->0;
    assert forall|k: Seq<char>| #[trigger] a.values.contains_key(k) implies c.values.contains_key(k)
        && c.values[k] == a.values[k] && (c.human.contains(k) == a.human.contains(k)) by {
        assert(!resolution_conflict(a, b, k));
        assert(!lane_conflict(a, b, k));
    }
    assert forall|k: Seq<char>| #[trigger] b.values.contains_key(k) implies c.values.contains_key(k)
        && c.values[k] == b.values[k] && (c.human.contains(k) == b.human.contains(k)) by {
        assert(!lane_conflict(a, b, k));
    }
    assert forall|k: Seq<char>| #[trigger] a.digests.contains_key(k) implies c.digests.contains_key(
        k,
    ) && c.digests[k] == a.digests[k] by {
        assert(!digest_conflict(a, b, k));
    }
}

/// Resuming with the answers already recorded changes nothing.
pub proof fn lemma_merge_same_answers(a: AnswersModel)
    ensures
        merge_spec(a, a) == Some(a),
{
    let c = merge_spec(a, a)->0;
    assert(c.values =~= a.values);
    assert(c.human =~= a.human);
    assert(c.digests =~= a.digests);
    assert(c.bound =~= a.bound);
}

/// A continuation that moves a recorded request to the other lane is
/// refused.
pub proof fn lemma_merge_rejects_lane_change(a: AnswersModel, b: AnswersModel, k: Seq<char>)
    requires
        a.values.contains_key(k),
        b.values.contains_key(k),
        a.human.contains(k) != b.human.contains(k),
    ensures
        merge_spec(a, b) is None,
{
    assert(lane_conflict(a, b, k));
}

/// A continuation that changes a recorded value is refused.
pub proof fn lemma_merge_rejects_changed_value(a: AnswersModel, b: AnswersModel, k: Seq<char>)
    requires
        a.values.contains_key(k),
        b.values.contains_key(k),
        a.values[k] != b.values[k],
    ensures
        merge_spec(a, b) is None,
{
    assert(resolution_conflict(a, b, k));
}

proof fn lemma_apply_lanes_human(
    values: Map<Seq<char>, JsonModel>,
    human: Set<Seq<char>>,
    a: Seq<(Seq<char>, JsonModel)>,
    k: Seq<char>,
)
    requires
        apply_lanes(values, human, a) is Ok,
        apply_lanes(values, human, a)->Ok_0.1.contains(k),
    ensures
        human.contains(k) || exists|i: int| 0 <= i < a.len() && #[trigger] a[i].0 == k,
    decreases a.len(),
{
    if a.len() > 0 && !human.contains(k) && a[0].0 != k {
        lemma_apply_lanes_human(values.insert(a[0].0, a[0].1), human.insert(a[0].0), a.drop_first(), k);
        let i = choose|i: int| 0 <= i < a.drop_first().len() && #[trigger] a.drop_first()[i].0 == k;
        assert(a[i + 1].0 == k);
    }
}

proof fn lemma_apply_lanes_wf(
    values: Map<Seq<char>, JsonModel>,
    human: Set<Seq<char>>,
    a: Seq<(Seq<char>, JsonModel)>,
)
    requires
        apply_lanes(values, human, a) is Ok,
        human.subset_of(values.dom()),
    ensures
        apply_lanes(values, human, a)->Ok_0.1.subset_of(apply_lanes(values, human, a)->Ok_0.0.dom()),
    decreases a.len(),
{
    if a.len() > 0 {
        lemma_apply_lanes_wf(values.insert(a[0].0, a[0].1), human.insert(a[0].0), a.drop_first());
    }
}

/// Only the approvals of a nested answers file grant human authority: a
/// flat file, or a plain answer, never does.
pub proof fn lemma_human_lane_only_from_approvals(
    e: Seq<(Seq<char>, JsonModel)>,
    with_digests: bool,
    k: Seq<char>,
)
    requires
        normalize_spec(e, with_digests) is Ok,
        normalize_spec(e, with_digests)->Ok_0.human.contains(k),
    ensures
        object_field(e, "approvals"@) matches Some(Some(p)) && exists|i: int|
            0 <= i < p.len() && #[trigger] p[i].0 == k,
{
    let answers = object_field(e, "answers"@)->0->0;
    let approvals = object_field(e, "approvals"@)->0->0;
    lemma_apply_lanes_human(entry_map(answers), Set::empty(), approvals, k);
}

/// Normalized answers keep every human decision attached to a value.
pub proof fn lemma_normalized_lanes_wf(e: Seq<(Seq<char>, JsonModel)>, with_digests: bool)
    requires
        normalize_spec(e, with_digests) is Ok,
    ensures
        lanes_wf(normalize_spec(e, with_digests)->Ok_0),
{
    let nested = has_key(e, "answers"@) || has_key(e, "approvals"@) || (with_digests && has_key(
        e,
        "request_digests"@,
    ));
    if nested {
        let answers = object_field(e, "answers"@)->0->0;
        let approvals = object_field(e, "approvals"@)->0->0;
        lemma_apply_lanes_wf(entry_map(answers), Set::empty(), approvals);
    }
}

} // verus!
