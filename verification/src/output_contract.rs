//! What a runner's output records of the contracts it was verified
//! against: the output contract's digest and the declared packet schemas,
//! under one metadata key, attached to the output at most once.
use vstd::prelude::*;

use crate::json::{has_key, JsonModel, JsonObject, JsonValue};

verus! {

/// The verification record's entries: the output contract's digest when
/// one was declared, then the packet schemas when any were declared.
pub open spec fn verification_entries(
    output_contract_digest: Option<Seq<char>>,
    packet_schemas: Seq<(Seq<char>, JsonModel)>,
) -> Seq<(Seq<char>, JsonModel)> {
    (match output_contract_digest {
        Some(d) => seq![("output_contract_sha256"@, JsonModel::Str(d))],
        None => Seq::empty(),
    }) + (if packet_schemas.len() > 0 {
        seq![("packet_schemas"@, JsonModel::Object(packet_schemas))]
    } else {
        Seq::empty()
    })
}

/// The metadata a verified output carries: nothing when no output contract
/// and no packet schema was declared; otherwise the verification record
/// under `key`.
pub fn contract_metadata(key: &str, output_contract_digest: Option<&str>, packet_schemas: JsonObject) -> (r:
    JsonObject)
    ensures
        r@ == if output_contract_digest is None && packet_schemas@.len() == 0 {
            Seq::empty()
        } else {
            seq![
                (
                    key@,
                    JsonModel::Object(
                        verification_entries(
                            match output_contract_digest {
                                Some(d) => Some(d@),
                                None => None,
                            },
                            packet_schemas@,
                        ),
                    ),
                ),
            ]
        },
{
    let ghost schemas = packet_schemas@;
    let mut verification = JsonObject::new();
    match output_contract_digest {
        Some(d) => verification.push_last(
            "output_contract_sha256".to_owned(),
            JsonValue::String(d.to_owned()),
        ),
        None => {},
    }
    if !packet_schemas.is_empty() {
        proof {
            reveal_strlit("output_contract_sha256");
            reveal_strlit("packet_schemas");
            assert(crate::text::seq_less("output_contract_sha256"@, "packet_schemas"@));
        }
        verification.push_last("packet_schemas".to_owned(), JsonValue::Object(packet_schemas));
    }
    let ghost d = match output_contract_digest {
        Some(d) => Some(d@),
        None => None,
    };
    let mut r = JsonObject::new();
    if verification.is_empty() {
        assert(verification_entries(d, schemas).len() == 0);
        return r;
    }
    assert(verification@ =~= verification_entries(d, schemas));
    r.push_last(key.to_owned(), JsonValue::Object(verification));
    assert(r@ =~= seq![(key@, JsonModel::Object(verification_entries(d, schemas)))]);
    r
}

proof fn lemma_empty_map(o: JsonObject)
    ensures
        (o@.len() == 0) == (o.map() == Map::<Seq<char>, JsonModel>::empty()),
{
    if o@.len() == 0 {
        assert(o.map() =~= Map::<Seq<char>, JsonModel>::empty());
    } else {
        assert(has_key(o@, o@[0].0));
        assert(o.map().contains_key(o@[0].0));
    }
}

/// Attaches the verification record of `metadata` (under `key`) to an
/// output's metadata. Nothing is attached when there is none; any other
/// metadata is refused, and so is a record the output already carries.
pub fn attach_verified_metadata(output: &mut JsonObject, metadata: JsonObject, key: &str) -> (r: Result<
    (),
    String,
>)
    ensures
        !metadata.map().contains_key(key@) ==> r is Ok && final(output).map() == old(output).map(),
        metadata.map().contains_key(key@) && metadata.map().remove(key@) != Map::<
            Seq<char>,
            JsonModel,
        >::empty() ==> (r matches Err(m) && m@ == "runner contract verification produced undeclared metadata"@
            && final(output).map() == old(output).map()),
        metadata.map().contains_key(key@) && metadata.map().remove(key@) == Map::<
            Seq<char>,
            JsonModel,
        >::empty() ==> (final(output).map() == old(output).map().insert(key@, metadata.map()[key@]) && if old(
            output,
        ).map().contains_key(key@) {
            r matches Err(m) && m@ == "runner output supplied duplicate contract verification metadata"@
        } else {
            r is Ok
        }),
{
    let mut rest = metadata;
    let ghost all = rest.map();
    let verification = match rest.remove(key) {
        Some(v) => v,
        None => {
            assert(!all.contains_key(key@));
            return Ok(());
        },
    };
    proof {
        lemma_empty_map(rest);
        assert(all.contains_key(key@));
    }
    if !rest.is_empty() {
        return Err("runner contract verification produced undeclared metadata".to_owned());
    }
    let prior = output.insert(key.to_owned(), verification);
    match prior {
        Some(_) => {
            proof {
                assert(old(output).map().contains_key(key@));
            }
            Err("runner output supplied duplicate contract verification metadata".to_owned())
        },
        None => {
            proof {
                assert(!old(output).map().contains_key(key@));
            }
            Ok(())
        },
    }
}

} // verus!
