//! The JSON boundary: the engine's inbound payloads — a sandbox's task
//! declaration, the host's validity answer, and a previously reported op
//! list handed back for replay — arrive as JSON text.  serde_json does the
//! parsing behind declared readings: each reading is a function of the text
//! alone, so it carries a name that the parsers' contracts are stated over.
//! The defaulting, filtering and list assembly around the readings are
//! verified.

use vstd::prelude::*;
use vstd::string::StringExecFns;
use crate::ops::{WasmDbOp, OpModel, op_wf, ops_model, opt_text_view};

verus! {

/// serde_json's reading of the `gasLimit` field of the validity answer:
/// absent when the text does not parse, is not an object, lacks the field,
/// or holds a non-u64 there.
pub uninterp spec fn gas_field_of(s: Seq<char>) -> Option<u64>;

/// serde_json's reading of the `name` field of a task declaration, when it
/// is a string.
pub uninterp spec fn task_name_field_of(s: Seq<char>) -> Option<Seq<char>>;

/// serde_json's reading of the length of the `deps` array of a task
/// declaration, zero when absent or not an array.
pub uninterp spec fn task_dep_count_of(s: Seq<char>) -> usize;

/// serde_json's reading of the `i`th entry of the `deps` array, when that
/// entry is a string.
pub uninterp spec fn task_dep_of(s: Seq<char>, i: int) -> Option<Seq<char>>;

/// serde_json's reading of the text as a JSON array: its length when it is
/// one, absent otherwise.
pub uninterp spec fn op_list_shape_of(s: Seq<char>) -> Option<usize>;

/// serde_json's reading of the `opType` field of the `i`th array entry, when
/// it is a string.
pub uninterp spec fn op_type_of(s: Seq<char>, i: int) -> Option<Seq<char>>;

/// serde_json's reading of the `key` field of the `i`th array entry, when it
/// is a string.
pub uninterp spec fn op_key_of(s: Seq<char>, i: int) -> Option<Seq<char>>;

/// serde_json's reading of the `val` field of the `i`th array entry, when it
/// is a string.
pub uninterp spec fn op_val_of(s: Seq<char>, i: int) -> Option<Seq<char>>;

/// Relies on serde_json::from_str, Value::get and Value::as_u64: the
/// `gasLimit` field of the validity answer.  The reading depends on the text
/// alone; parse failures surface as `None`, never a panic.
#[verifier::external_body]
fn read_gas_field(resp: &str) -> (r: Option<u64>)
    ensures
        r == gas_field_of(resp@),
{
    serde_json::from_str::<serde_json::Value>(resp).ok().and_then(
        |v| v.get("gasLimit").and_then(|g| g.as_u64()),
    )
}

/// Relies on serde_json::from_str, Value::get and Value::as_str: the `name`
/// field of a task declaration, owned.
#[verifier::external_body]
fn read_task_name(text: &str) -> (r: Option<String>)
    ensures
        opt_text_view(r) == task_name_field_of(text@),
{
    serde_json::from_str::<serde_json::Value>(text).ok().and_then(
        |v| v.get("name").and_then(|n| n.as_str().map(|s| s.to_string())),
    )
}

/// Relies on serde_json::from_str, Value::get and Value::as_array: how many
/// entries the declaration's `deps` array holds.
#[verifier::external_body]
fn read_task_dep_count(text: &str) -> (r: usize)
    ensures
        r == task_dep_count_of(text@),
{
    serde_json::from_str::<serde_json::Value>(text).ok().and_then(
        |v| v.get("deps").and_then(|d| d.as_array().map(|a| a.len())),
    ).unwrap_or(0)
}

/// Relies on serde_json::from_str, Value::get, Value::as_array and
/// Value::as_str: the `i`th `deps` entry, when it is a string.
#[verifier::external_body]
fn read_task_dep(text: &str, i: usize) -> (r: Option<String>)
    ensures
        opt_text_view(r) == task_dep_of(text@, i as int),
{
    serde_json::from_str::<serde_json::Value>(text).ok().and_then(
        |v|
            v.get("deps").and_then(
                |d| d.as_array().and_then(|a| a.get(i)).and_then(
                    |e| e.as_str().map(|s| s.to_string()),
                ),
            ),
    )
}

/// Relies on serde_json::from_str and Value::as_array: whether the text is a
/// JSON array, and its length.
#[verifier::external_body]
fn read_op_list_shape(text: &str) -> (r: Option<usize>)
    ensures
        r == op_list_shape_of(text@),
{
    serde_json::from_str::<serde_json::Value>(text).ok().and_then(
        |v| v.as_array().map(|a| a.len()),
    )
}

/// Relies on serde_json::from_str, Value::as_array, Value::get and
/// Value::as_str: the `opType` field of the `i`th array entry.
#[verifier::external_body]
fn read_op_type(text: &str, i: usize) -> (r: Option<String>)
    ensures
        opt_text_view(r) == op_type_of(text@, i as int),
{
    serde_json::from_str::<serde_json::Value>(text).ok().and_then(
        |v|
            v.as_array().and_then(|a| a.get(i)).and_then(
                |e| e.get("opType").and_then(|t| t.as_str().map(|s| s.to_string())),
            ),
    )
}

/// Relies on serde_json::from_str, Value::as_array, Value::get and
/// Value::as_str: the `key` field of the `i`th array entry.
#[verifier::external_body]
fn read_op_key(text: &str, i: usize) -> (r: Option<String>)
    ensures
        opt_text_view(r) == op_key_of(text@, i as int),
{
    serde_json::from_str::<serde_json::Value>(text).ok().and_then(
        |v|
            v.as_array().and_then(|a| a.get(i)).and_then(
                |e| e.get("key").and_then(|t| t.as_str().map(|s| s.to_string())),
            ),
    )
}

/// Relies on serde_json::from_str, Value::as_array, Value::get and
/// Value::as_str: the `val` field of the `i`th array entry.
#[verifier::external_body]
fn read_op_val(text: &str, i: usize) -> (r: Option<String>)
    ensures
        opt_text_view(r) == op_val_of(text@, i as int),
{
    serde_json::from_str::<serde_json::Value>(text).ok().and_then(
        |v|
            v.as_array().and_then(|a| a.get(i)).and_then(
                |e| e.get("val").and_then(|t| t.as_str().map(|s| s.to_string())),
            ),
    )
}

/// The declared task name: the `name` field's reading, empty when absent.
pub open spec fn task_name_of(s: Seq<char>) -> Seq<char> {
    match task_name_field_of(s) {
        Some(n) => n,
        None => Seq::empty(),
    }
}

/// The declared resource names among the first `k` `deps` entries: the
/// string entries, in order.
pub open spec fn task_deps_upto(s: Seq<char>, k: int) -> Seq<Seq<char>>
    decreases k,
{
    if k <= 0 {
        Seq::empty()
    } else {
        task_deps_upto(s, k - 1) + match task_dep_of(s, k - 1) {
            Some(d) => seq![d],
            None => Seq::empty(),
        }
    }
}

/// All declared resource names of a task declaration.
pub open spec fn task_deps_of(s: Seq<char>) -> Seq<Seq<char>> {
    task_deps_upto(s, task_dep_count_of(s) as int)
}

/// The op kept from the `i`th array entry of an op list, if any: a `"put"`
/// with the entry's key and value (empty when absent), a `"del"` with the
/// entry's key, nothing for any other or unreadable op type.
pub open spec fn op_entry_of(s: Seq<char>, i: int) -> Option<OpModel> {
    match (op_type_of(s, i), op_key_of(s, i)) {
        (Some(t), Some(k)) => if t == "put"@ {
            Some(
                OpModel {
                    put: true,
                    key: k,
                    val: match op_val_of(s, i) {
                        Some(v) => v,
                        None => Seq::empty(),
                    },
                },
            )
        } else if t == "del"@ {
            Some(OpModel { put: false, key: k, val: Seq::empty() })
        } else {
            None
        },
        _ => None,
    }
}

/// The ops kept from the first `k` array entries, in order.
pub open spec fn kept_ops_upto(s: Seq<char>, k: int) -> Seq<OpModel>
    decreases k,
{
    if k <= 0 {
        Seq::empty()
    } else {
        kept_ops_upto(s, k - 1) + match op_entry_of(s, k - 1) {
            Some(m) => seq![m],
            None => Seq::empty(),
        }
    }
}

/// The whole op list a text decodes to: absent unless the text is a JSON
/// array, else the kept ops of all its entries in order.
pub open spec fn op_list_of(s: Seq<char>) -> Option<Seq<OpModel>> {
    match op_list_shape_of(s) {
        Some(n) => Some(kept_ops_upto(s, n as int)),
        None => None,
    }
}

/// The cost budget in the host's `checkTokenValidity` answer: the `gasLimit`
/// reading, zero when missing or unreadable — which the caller treats as an
/// invalid token.
pub fn parse_gas_limit(resp: &str) -> (r: u64)
    ensures
        r == match gas_field_of(resp@) {
            Some(n) => n,
            None => 0u64,
        },
{
    match read_gas_field(resp) {
        Some(n) => n,
        None => 0,
    }
}

/// A sandbox's `newSyncTask` payload: `{name, deps}`.  The name's reading
/// (empty when absent) and the string entries of `deps`, in order; a
/// malformed payload degrades to an empty declaration, as the boundary must
/// never panic an applet thread.
pub fn parse_sync_task_decl(text: &str) -> (r: (String, Vec<String>))
    ensures
        r.0@ == task_name_of(text@),
        r.1@.map_values(|d: String| d@) =~= task_deps_of(text@),
{
    let name = match read_task_name(text) {
        Some(n) => n,
        None => String::new(),
    };
    let count = read_task_dep_count(text);
    let mut deps: Vec<String> = Vec::new();
    let mut i: usize = 0;
    while i < count
        invariant
            i <= count,
            count == task_dep_count_of(text@),
            deps@.map_values(|d: String| d@) =~= task_deps_upto(text@, i as int),
        decreases count - i,
    {
        let ghost pre = deps@;
        match read_task_dep(text, i) {
            Some(d) => {
                deps.push(d);
                proof {
                    assert(deps@.map_values(|d2: String| d2@) =~= pre.map_values(
                        |d2: String| d2@,
                    ).push(deps@.last()@));
                }
            },
            None => {},
        }
        i = i + 1;
    }
    (name, deps)
}

/// An `applyTrxEffects` payload: the op-list wire shape, an ordered array of
/// `{opType, key, val}`.  Succeeds exactly when the text is a JSON array;
/// the result holds the kept ops of its entries in order, every one well
/// formed, ready to be replayed against the durable engine.
pub fn parse_op_list(text: &str) -> (r: Option<Vec<WasmDbOp>>)
    ensures
        (r is Some) == (op_list_shape_of(text@) is Some),
        match r {
            Some(ops) => {
                &&& Some(ops_model(ops@)) =~= op_list_of(text@)
                &&& forall|i: int| 0 <= i < ops@.len() ==> op_wf(#[trigger] ops@[i])
            },
            None => true,
        },
{
    let count = match read_op_list_shape(text) {
        Some(n) => n,
        None => {
            return None;
        },
    };
    let mut ops: Vec<WasmDbOp> = Vec::new();
    let mut i: usize = 0;
    while i < count
        invariant
            i <= count,
            op_list_shape_of(text@) == Some(count),
            ops_model(ops@) =~= kept_ops_upto(text@, i as int),
            forall|j: int| 0 <= j < ops@.len() ==> op_wf(#[trigger] ops@[j]),
        decreases count - i,
    {
        let ghost pre = ops@;
        let op_type = read_op_type(text, i);
        let key = read_op_key(text, i);
        let val = read_op_val(text, i);
        match (op_type, key) {
            (Some(t), Some(k)) => {
                let is_put = t == String::from_str("put");
                let is_del = t == String::from_str("del");
                if is_put {
                    let v = match val {
                        Some(v) => v,
                        None => String::new(),
                    };
                    ops.push(WasmDbOp { type_: String::from_str("put"), key: k, val: v });
                    proof {
                        assert(op_entry_of(text@, i as int) == Some(ops@.last()@));
                        lemma_kept_push(pre, ops@, text@, i as int);
                    }
                } else if is_del {
                    ops.push(
                        WasmDbOp { type_: String::from_str("del"), key: k, val: String::new() },
                    );
                    proof {
                        reveal_strlit("put");
                        reveal_strlit("del");
                        assert("put"@ != "del"@) by {
                            assert("put"@[0] == 'p');
                            assert("del"@[0] == 'd');
                        }
                        assert(op_entry_of(text@, i as int) == Some(ops@.last()@));
                        lemma_kept_push(pre, ops@, text@, i as int);
                    }
                } else {
                    proof {
                        assert(op_entry_of(text@, i as int) is None);
                    }
                }
            },
            _ => {
                proof {
                    assert(op_entry_of(text@, i as int) is None);
                }
            },
        }
        i = i + 1;
    }
    Some(ops)
}

/// Keeping one more op extends the model by that op's view.
proof fn lemma_kept_push(pre: Seq<WasmDbOp>, now: Seq<WasmDbOp>, s: Seq<char>, i: int)
    requires
        0 <= i,
        now.len() == pre.len() + 1,
        forall|j: int| 0 <= j < pre.len() ==> now[j] == pre[j],
        op_entry_of(s, i) == Some(now.last()@),
        ops_model(pre) =~= kept_ops_upto(s, i),
    ensures
        ops_model(now) =~= kept_ops_upto(s, i + 1),
{
    assert(ops_model(now) =~= ops_model(pre).push(now.last()@));
    assert(kept_ops_upto(s, i + 1) =~= kept_ops_upto(s, i) + seq![now.last()@]);
}

} // verus!
