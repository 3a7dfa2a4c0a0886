//! The decision rules of filtering-script management: creation quota,
//! script-name validation, which script activations change state, blob
//! reuse on update, and quota accounting.

use vstd::prelude::*;
use vstd::string::StrSliceExecFns;

use crate::blob::BlobClass;
use rand::Rng;

verus! {

/// One more script may be created while the account's count has not left
/// the configured bound behind.
pub fn may_create_script(current_count: usize, max_scripts: usize) -> (r: bool)
    ensures
        r == (current_count <= max_scripts),
{
    current_count <= max_scripts
}

/// Whether the name is the reserved vacation-response script's, compared
/// without regard to ASCII case.
pub open spec fn is_vacation_name(s: Seq<char>) -> bool {
    &&& s.len() == 8
    &&& (s[0] == 'v' || s[0] == 'V')
    &&& (s[1] == 'a' || s[1] == 'A')
    &&& (s[2] == 'c' || s[2] == 'C')
    &&& (s[3] == 'a' || s[3] == 'A')
    &&& (s[4] == 't' || s[4] == 'T')
    &&& (s[5] == 'i' || s[5] == 'I')
    &&& (s[6] == 'o' || s[6] == 'O')
    &&& (s[7] == 'n' || s[7] == 'N')
}

/// Whether the name is the reserved vacation-response script's.
pub fn vacation_name(name: &String) -> (r: bool)
    ensures
        r == is_vacation_name(name@),
{
    let n = name.as_str().unicode_len();
    if n != 8 {
        return false;
    }
    let c0 = name.as_str().get_char(0);
    let c1 = name.as_str().get_char(1);
    let c2 = name.as_str().get_char(2);
    let c3 = name.as_str().get_char(3);
    let c4 = name.as_str().get_char(4);
    let c5 = name.as_str().get_char(5);
    let c6 = name.as_str().get_char(6);
    let c7 = name.as_str().get_char(7);
    (c0 == 'v' || c0 == 'V') && (c1 == 'a' || c1 == 'A') && (c2 == 'c' || c2 == 'C') && (c3 == 'a'
        || c3 == 'A') && (c4 == 't' || c4 == 'T') && (c5 == 'i' || c5 == 'I') && (c6 == 'o' || c6
        == 'O') && (c7 == 'n' || c7 == 'N')
}

/// What a requested script name comes to.
#[derive(Clone, Copy, PartialEq, Eq, Structural, Debug)]
pub enum NameDecision {
    /// Longer than the configured bound.
    TooLong,
    /// The reserved vacation-response name.
    Reserved,
    /// Acceptable, but only if no other script of the account carries it.
    NeedsUniquenessCheck,
    /// Acceptable as it is: the update keeps its previous name.
    Accept,
}

/// The name rule: too long is rejected, the reserved name is rejected, a
/// name that differs from the one it replaces must be checked for
/// uniqueness, and only a name kept unchanged passes outright.
pub open spec fn name_decision_spec(
    name: Seq<char>,
    max_len: int,
    prev: Option<Seq<char>>,
) -> NameDecision {
    if name.len() > max_len {
        NameDecision::TooLong
    } else if is_vacation_name(name) {
        NameDecision::Reserved
    } else if match prev {
        Some(p) => p != name,
        None => true,
    } {
        NameDecision::NeedsUniquenessCheck
    } else {
        NameDecision::Accept
    }
}

/// Validates a requested script name against the configured length bound
/// and the name it would replace; see `name_decision_spec`.
pub fn validate_script_name(name: &String, max_len: usize, prev: Option<&String>) -> (r:
    NameDecision)
    ensures
        r == name_decision_spec(name@, max_len as int, match prev {
            Some(p) => Some(p@),
            None => None,
        }),
{
    if name.as_str().unicode_len() > max_len {
        NameDecision::TooLong
    } else if vacation_name(name) {
        NameDecision::Reserved
    } else {
        let changed = match prev {
            Some(p) => !(*p == *name),
            None => true,
        };
        if changed {
            NameDecision::NeedsUniquenessCheck
        } else {
            NameDecision::Accept
        }
    }
}

/// Whether an id is not the one being activated.
pub open spec fn keeps_id(activate: u32) -> spec_fn(u32) -> bool {
    |x: u32| x != activate
}

/// What one activation request changes.
pub struct ActivationPlan {
    /// Scripts to mark inactive.
    pub deactivate: Vec<u32>,
    /// The script to mark active, when it is not already.
    pub activate: Option<u32>,
}

/// Plans an activation: when the requested script is already the only
/// active one, nothing changes; an already-active script among others
/// only has the others deactivated; otherwise every active script is
/// deactivated and the requested one, if any, activated.
pub fn activation_plan(active_ids: &Vec<u32>, activate_id: Option<u32>) -> (r: ActivationPlan)
    ensures
        match activate_id {
            Some(id) => if active_ids@.contains(id) {
                r.deactivate@ == active_ids@.filter(keeps_id(id)) && r.activate is None
            } else {
                r.deactivate@ == active_ids@ && r.activate == Some(id)
            },
            None => r.deactivate@ == active_ids@ && r.activate is None,
        },
{
    match activate_id {
        Some(id) => {
            let mut contained = false;
            let mut k: usize = 0;
            while k < active_ids.len()
                invariant
                    0 <= k <= active_ids@.len(),
                    contained <==> exists|i: int| 0 <= i < k && active_ids@[i] == id,
                decreases active_ids@.len() - k,
            {
                if active_ids[k] == id {
                    contained = true;
                }
                k = k + 1;
            }
            if contained {
                let mut deactivate: Vec<u32> = Vec::new();
                proof {
                    reveal(Seq::filter);
                    assert(active_ids@.take(0).filter(keeps_id(id)) =~= Seq::<u32>::empty());
                }
                let mut j: usize = 0;
                while j < active_ids.len()
                    invariant
                        0 <= j <= active_ids@.len(),
                        deactivate@ == active_ids@.take(j as int).filter(keeps_id(id)),
                    decreases active_ids@.len() - j,
                {
                    let x = active_ids[j];
                    proof {
                        reveal(Seq::filter);
                        assert(active_ids@.take(j as int + 1).drop_last() =~= active_ids@.take(
                            j as int,
                        ));
                        assert(active_ids@.take(j as int + 1).last() == x);
                    }
                    if x != id {
                        deactivate.push(x);
                    }
                    j = j + 1;
                }
                proof {
                    assert(active_ids@.take(active_ids@.len() as int) =~= active_ids@);
                }
                ActivationPlan { deactivate, activate: None }
            } else {
                ActivationPlan { deactivate: clone_ids(active_ids), activate: Some(id) }
            }
        },
        None => ActivationPlan { deactivate: clone_ids(active_ids), activate: None },
    }
}

/// A copy of the id list.
fn clone_ids(ids: &Vec<u32>) -> (r: Vec<u32>)
    ensures
        r@ == ids@,
{
    let mut out: Vec<u32> = Vec::new();
    let mut k: usize = 0;
    while k < ids.len()
        invariant
            0 <= k <= ids@.len(),
            out@ == ids@.take(k as int),
        decreases ids@.len() - k,
    {
        out.push(ids[k]);
        proof {
            assert(ids@.take(k as int + 1) =~= ids@.take(k as int).push(ids@[k as int]));
        }
        k = k + 1;
    }
    proof {
        assert(ids@.take(ids@.len() as int) =~= ids@);
    }
    out
}

/// Whether an updated script must fetch and recompile its blob: always on
/// creation, and on update whenever the named blob is not the very one
/// already linked to the script being updated.
pub fn blob_needs_fetch(
    class: &BlobClass,
    owner_account: u32,
    script_collection: u8,
    updating: Option<u32>,
) -> (r: bool)
    ensures
        r == match updating {
            None => true,
            Some(doc) => !(*class matches BlobClass::Linked { account_id, collection, document_id }
                && account_id == owner_account && collection == script_collection && document_id
                == doc),
        },
{
    match updating {
        None => true,
        Some(doc) => {
            match class {
                BlobClass::Linked { account_id, collection, document_id } => !(*account_id
                    == owner_account && *collection == script_collection && *document_id == doc),
                BlobClass::Reserved { .. } => true,
            }
        },
    }
}

/// How an update changes the account's used quota: the new script size
/// against the replaced one's.
pub fn quota_delta(new_size: i64, prev_size: i64) -> (r: i64)
    requires
        new_size >= 0,
        prev_size >= 0,
        new_size - prev_size >= i64::MIN,
    ensures
        r == new_size - prev_size,
{
    new_size - prev_size
}

/// Relies on rand's Alphanumeric distribution: a name of exactly 15
/// characters; which ones is left open.
#[verifier::external_body]
fn random_script_name() -> (r: String)
    ensures
        r@.len() == 15,
{
    rand::thread_rng().sample_iter(rand::distributions::Alphanumeric).take(15).map(
        char::from,
    ).collect()
}

/// The name a new script gets: the one asked for when it is non-empty,
/// else a fresh random one of 15 characters.
pub fn effective_script_name(provided: Option<String>) -> (r: String)
    ensures
        match provided {
            Some(n) => if n@.len() > 0 {
                r == n
            } else {
                r@.len() == 15
            },
            None => r@.len() == 15,
        },
{
    match provided {
        Some(n) => {
            if n.as_str().unicode_len() > 0 {
                n
            } else {
                random_script_name()
            }
        },
        None => random_script_name(),
    }
}

} // verus!
