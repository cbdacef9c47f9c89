//! What the sandbox leader process does once it runs in its new namespaces:
//! the command name it shows in process listings and the network namespace,
//! if any, that it joins before it suspends itself.
use crate::frame::{
    decode_request, has_nul, is_cstr_prefix, push_all, SandboxRequest, ID_LEN, REQUEST_LEN,
};
use vstd::prelude::*;

verus! {

/// The NUL-terminated command name of the sandbox parent process:
/// `[sandbox-parent]`, in ASCII.
pub open spec fn parent_comm_spec() -> Seq<u8> {
    seq![
        91u8, 115u8, 97u8, 110u8, 100u8, 98u8, 111u8, 120u8, 45u8, 112u8, 97u8, 114u8, 101u8, 110u8, 116u8,
        93u8, 0u8,
    ]
}

/// The NUL-terminated command name of the leader of sandbox `id`:
/// `[sandbox-<id>]`, in ASCII.
pub open spec fn sandbox_comm_spec(id: Seq<u8>) -> Seq<u8> {
    seq![91u8, 115u8, 97u8, 110u8, 100u8, 98u8, 111u8, 120u8, 45u8] + id + seq![93u8, 0u8]
}

/// What the leader of a sandbox does before it suspends itself.
pub struct LeaderPlan {
    /// The NUL-terminated command name to show.
    pub comm: Vec<u8>,
    /// The network-namespace path to join, if one was given.
    pub netns: Option<Vec<u8>>,
}

/// The NUL-terminated command name of the sandbox parent process.
pub fn parent_comm() -> (r: Vec<u8>)
    ensures
        r@ == parent_comm_spec(),
{
    let r: Vec<u8> = vec![
        91u8, 115u8, 97u8, 110u8, 100u8, 98u8, 111u8, 120u8, 45u8, 112u8, 97u8, 114u8, 101u8, 110u8, 116u8,
        93u8, 0u8,
    ];
    assert(r@ =~= parent_comm_spec());
    r
}

/// The NUL-terminated command name of the leader of sandbox `id`; `None`
/// when `id` holds a NUL byte, which would cut the name short.
pub fn sandbox_comm(id: &[u8]) -> (r: Option<Vec<u8>>)
    ensures
        r is None <==> has_nul(id@),
        r matches Some(c) ==> c@ == sandbox_comm_spec(id@),
{
    let mut k: usize = 0;
    while k < id.len()
        invariant
            k <= id@.len(),
            forall|j: int| 0 <= j < k ==> id@[j] != 0,
        decreases id@.len() - k,
    {
        if id[k] == 0 {
            return None;
        }
        k = k + 1;
    }
    let mut c: Vec<u8> = vec![91u8, 115u8, 97u8, 110u8, 100u8, 98u8, 111u8, 120u8, 45u8];
    push_all(&mut c, id);
    c.push(93u8);
    c.push(0u8);
    assert(c@ =~= sandbox_comm_spec(id@));
    Some(c)
}

/// The plan of the leader for a request: its command name, and the network
/// namespace to join when the request names one (a non-empty path).
pub fn leader_plan(req: SandboxRequest) -> (r: LeaderPlan)
    requires
        !has_nul(req.id@),
    ensures
        r.comm@ == sandbox_comm_spec(req.id@),
        match r.netns {
            Some(p) => req.netns@.len() > 0 && p@ == req.netns@,
            None => req.netns@.len() == 0,
        },
{
    let comm = match sandbox_comm(req.id.as_slice()) {
        Some(c) => c,
        None => {
            assert(false);
            Vec::new()
        },
    };
    let netns = if req.netns.len() > 0 {
        Some(req.netns)
    } else {
        None
    };
    LeaderPlan { comm, netns }
}


/// The work of the sandbox parent on one request frame: the identifier it
/// carries, read up to its first NUL byte, and the plan of the leader to
/// create; `None` when the path region of the frame holds no NUL byte.
pub fn plan_for_frame(frame: &[u8]) -> (r: Option<(Vec<u8>, LeaderPlan)>)
    requires
        frame@.len() == REQUEST_LEN,
    ensures
        r is Some <==> has_nul(frame@.subrange(ID_LEN as int, REQUEST_LEN as int)),
        r matches Some((id, plan)) ==> {
            &&& is_cstr_prefix(id@, frame@.subrange(0, ID_LEN as int))
            &&& plan.comm@ == sandbox_comm_spec(id@)
            &&& match plan.netns {
                Some(p) => p@.len() > 0 && is_cstr_prefix(
                    p@,
                    frame@.subrange(ID_LEN as int, REQUEST_LEN as int),
                ),
                None => is_cstr_prefix(
                    Seq::empty(),
                    frame@.subrange(ID_LEN as int, REQUEST_LEN as int),
                ),
            }
        },
{
    match decode_request(frame) {
        Some(req) => {
            let id = req.id.clone();
            assert(id@ == req.id@);
            assert(!has_nul(req.id@));
            let plan = leader_plan(req);
            Some((id, plan))
        },
        None => None,
    }
}

} // verus!
