use vstd::prelude::*;
use vstd::bytes::{spec_u64_from_le_bytes, spec_u64_to_le_bytes, u64_from_le_bytes, u64_to_le_bytes};
use crate::commands::settled;
use crate::group::{Group, GroupStatus};
use crate::state::State;
use crate::task::Task;
use crate::tls::bytes_of;

verus! {

/// The version of the stored state that this daemon writes and reads.
pub const STATE_VERSION: u64 = 1;

/// Why a stored state ends the start.
#[derive(Clone, Copy, Debug, PartialEq, Eq, Structural)]
pub enum StoreError {
    /// The state was written in another version. It is left as it is.
    UnknownVersion(u64),
}

/// The values that the fields after the version hold.
pub struct Stored {
    pub tasks: Vec<Task>,
    pub groups: Vec<Group>,
    pub next_id: u64,
}

/// The version that stored fields carry: the first field, eight bytes, low
/// byte first. `None` where there is no such field.
pub open spec fn stored_version(fields: Seq<Seq<u8>>) -> Option<u64> {
    if fields.len() > 0 && fields[0].len() == 8 {
        Some(spec_u64_from_le_bytes(fields[0]))
    } else {
        None
    }
}

/// The version that ends the start, if the fields carry one: any but this
/// daemon's.
pub open spec fn refused_version(fields: Seq<Seq<u8>>) -> Option<u64> {
    match stored_version(fields) {
        Some(v) => if v != STATE_VERSION { Some(v) } else { None },
        None => None,
    }
}

/// The stored state is taken over: it carries this daemon's version, its
/// fields could be read as values, and the values satisfy the invariants.
pub open spec fn usable(fields: Seq<Seq<u8>>, content: Option<Stored>) -> bool {
    &&& stored_version(fields) == Some(STATE_VERSION)
    &&& content is Some
    &&& (State { tasks: content->0.tasks, groups: content->0.groups, next_id: content->0.next_id }).wf()
}

/// The state of a first start.
pub open spec fn clean(s: State) -> bool {
    &&& s.tasks@.len() == 0
    &&& s.next_id == 0
    &&& s.groups@.len() == 1
    &&& s.groups@[0].name@ == "default"@
    &&& s.groups@[0].parallel == 1
    &&& s.groups@[0].status == GroupStatus::Running
}

/// The field that carries this daemon's version.
pub fn version_field() -> (r: Vec<u8>)
    ensures
        r@ == spec_u64_to_le_bytes(STATE_VERSION),
        stored_version(seq![r@]) == Some(STATE_VERSION),
{
    proof {
        vstd::bytes::lemma_auto_spec_u64_to_from_le_bytes();
    }
    u64_to_le_bytes(STATE_VERSION)
}

/// Reads the version that stored fields carry.
pub fn read_version(fields: &Vec<Vec<u8>>) -> (r: Option<u64>)
    ensures
        r == stored_version(bytes_of(fields@)),
{
    if fields.len() > 0 && fields[0].len() == 8 {
        Some(u64_from_le_bytes(fields[0].as_slice()))
    } else {
        None
    }
}

/// Decides what a start makes of a stored state, given its fields and the
/// values that the fields after the version hold, `None` where they could not
/// be read as values.
///
/// A version other than this daemon's ends the start. Fields without a
/// version, fields that could not be read, and values that break the
/// invariants give the state of a first start. Anything else is taken over,
/// with every task that had a process ended as killed.
pub fn read_state(fields: &Vec<Vec<u8>>, content: Option<Stored>, now: u64) -> (r: Result<State, StoreError>)
    ensures
        match r {
            Err(e) => refused_version(bytes_of(fields@)) is Some && e == StoreError::UnknownVersion(
                refused_version(bytes_of(fields@))->0,
            ),
            Ok(s) => {
                &&& refused_version(bytes_of(fields@)) is None
                &&& s.wf()
                &&& s.within_limits()
                &&& !usable(bytes_of(fields@), content) ==> clean(s)
                &&& usable(bytes_of(fields@), content) ==> s.groups@ == content->0.groups@ && s.next_id
                    == content->0.next_id && s.tasks@.len() == content->0.tasks@.len() && forall|i: int|
                    0 <= i < s.tasks@.len() ==> settled(content->0.tasks@[i], #[trigger] s.tasks@[i], now)
            },
        },
{
    match read_version(fields) {
        None => Ok(State::new()),
        Some(v) => {
            if v != STATE_VERSION {
                return Err(StoreError::UnknownVersion(v));
            }
            match content {
                None => Ok(State::new()),
                Some(c) => Ok(State::restore(c.tasks, c.groups, c.next_id, now)),
            }
        },
    }
}

} // verus!
