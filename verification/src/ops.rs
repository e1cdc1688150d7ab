//! Plain data carried through a round: buffered storage operations, batch
//! invocation records, and the synchronization tasks an applet declares.

use vstd::prelude::*;

verus! {

/// Spec-level model of one buffered storage operation.
pub struct OpModel {
    /// True for a put, false for a delete.
    pub put: bool,
    pub key: Seq<char>,
    pub val: Seq<char>,
}

/// One buffered storage operation, in the op-list wire shape: an op type
/// (`"put"` or `"del"`), a key and a value.
pub struct WasmDbOp {
    pub type_: String,
    pub key: String,
    pub val: String,
}

impl View for WasmDbOp {
    type V = OpModel;

    open spec fn view(&self) -> OpModel {
        OpModel { put: self.type_@ == "put"@, key: self.key@, val: self.val@ }
    }
}

/// An op is well formed when its type is one of the two accepted words.
pub open spec fn op_wf(op: WasmDbOp) -> bool {
    op.type_@ == "put"@ || op.type_@ == "del"@
}

impl WasmDbOp {
    pub fn new() -> (r: Self)
        ensures
            r.type_@ =~= Seq::<char>::empty(),
            r.key@ =~= Seq::<char>::empty(),
            r.val@ =~= Seq::<char>::empty(),
    {
        WasmDbOp { type_: String::new(), key: String::new(), val: String::new() }
    }
}

impl Clone for WasmDbOp {
    fn clone(&self) -> (r: Self)
        ensures
            r@ == self@,
            r.type_@ == self.type_@,
            r.key@ == self.key@,
            r.val@ == self.val@,
    {
        WasmDbOp { type_: self.type_.clone(), key: self.key.clone(), val: self.val.clone() }
    }
}

/// The view of an optional text value.
pub open spec fn opt_text_view(e: Option<String>) -> Option<Seq<char>> {
    match e {
        Some(s) => Some(s@),
        None => None,
    }
}

/// The model of an op list, in declaration order.
pub open spec fn ops_model(ops: Seq<WasmDbOp>) -> Seq<OpModel> {
    ops.map_values(|o: WasmDbOp| o@)
}

/// One invocation of an onchain round: the applet identity, the caller's
/// resource token, the opaque input payload, the owner and the correlation id
/// the host expects results under.
pub struct ChainTrx {
    pub machine_id: String,
    pub key: String,
    pub input: String,
    pub user_id: String,
    pub callback_id: String,
}

impl ChainTrx {
    pub fn new(
        machine_id: String,
        key: String,
        input: String,
        user_id: String,
        callback_id: String,
    ) -> (r: Self)
        ensures
            r.machine_id@ == machine_id@,
            r.key@ == key@,
            r.input@ == input@,
            r.user_id@ == user_id@,
            r.callback_id@ == callback_id@,
    {
        ChainTrx { machine_id, key, input, user_id, callback_id }
    }
}

impl Clone for ChainTrx {
    fn clone(&self) -> (r: Self)
        ensures
            r.machine_id@ == self.machine_id@,
            r.key@ == self.key@,
            r.input@ == self.input@,
            r.user_id@ == self.user_id@,
            r.callback_id@ == self.callback_id@,
    {
        ChainTrx {
            machine_id: self.machine_id.clone(),
            key: self.key.clone(),
            input: self.input.clone(),
            user_id: self.user_id.clone(),
            callback_id: self.callback_id.clone(),
        }
    }
}

/// A named synchronization obligation an applet declares at runtime.  Each
/// entry of `deps` is either a plain resource name (a shared token ordering
/// tasks across the whole batch) or a task reference (a name starting with
/// `lock_`, waiting for the same applet's task of that name).
pub struct SyncTask {
    pub deps: Vec<String>,
    pub name: String,
}

impl Clone for SyncTask {
    fn clone(&self) -> (r: Self)
        ensures
            r.name@ == self.name@,
            r.deps@.len() == self.deps@.len(),
            forall|i: int| 0 <= i < self.deps@.len() ==> r.deps@[i]@ == self.deps@[i]@,
    {
        let mut deps: Vec<String> = Vec::new();
        let mut i: usize = 0;
        while i < self.deps.len()
            invariant
                i <= self.deps@.len(),
                deps@.len() == i,
                forall|j: int| 0 <= j < i as int ==> deps@[j]@ == self.deps@[j]@,
            decreases self.deps@.len() - i,
        {
            deps.push(self.deps[i].clone());
            i = i + 1;
        }
        SyncTask { deps, name: self.name.clone() }
    }
}

} // verus!
