//! Keys under which workflow state is stored.
use vstd::prelude::*;
use vstd::string::*;

use crate::common::WorkflowId;
use crate::text::without_prefix;

verus! {

pub const STORE_KEY_DAG: &'static str = "orch:dag:";

pub const STORE_KEY_EXEC: &'static str = "orch:exec:";

pub const STORE_KEY_PENDING: &'static str = "orch:pending:";

pub const STORE_KEY_RESULT: &'static str = "orch:result:";

pub const STORE_KEY_WAIT: &'static str = "orch:wait:";

pub const STORE_KEY_EVENT_SEQ: &'static str = "orch:eventseq:";

pub const STORE_KEY_SIGNALS: &'static str = "orch:sigbuf:";

fn prefixed(prefix: &str, wf_id: &WorkflowId) -> (key: String)
    ensures
        key@ == prefix@ + wf_id@,
{
    let mut key = prefix.to_owned();
    key.append(wf_id.0.as_str());
    key
}

/// Where a workflow's graph is stored.
pub fn dag_key(wf_id: &WorkflowId) -> (key: String)
    ensures
        key@ == STORE_KEY_DAG@ + wf_id@,
{
    prefixed(STORE_KEY_DAG, wf_id)
}

/// Where a workflow's execution state is stored.
pub fn exec_key(wf_id: &WorkflowId) -> (key: String)
    ensures
        key@ == STORE_KEY_EXEC@ + wf_id@,
{
    prefixed(STORE_KEY_EXEC, wf_id)
}

/// Where a workflow's pending counts are stored.
pub fn pending_key(wf_id: &WorkflowId) -> (key: String)
    ensures
        key@ == STORE_KEY_PENDING@ + wf_id@,
{
    prefixed(STORE_KEY_PENDING, wf_id)
}

/// Where a workflow's results are stored.
pub fn result_key(wf_id: &WorkflowId) -> (key: String)
    ensures
        key@ == STORE_KEY_RESULT@ + wf_id@,
{
    prefixed(STORE_KEY_RESULT, wf_id)
}

/// Where a workflow's wait points are stored.
pub fn wait_key(wf_id: &WorkflowId) -> (key: String)
    ensures
        key@ == STORE_KEY_WAIT@ + wf_id@,
{
    prefixed(STORE_KEY_WAIT, wf_id)
}

/// Where a workflow's event watermark is stored.
pub fn event_seq_key(wf_id: &WorkflowId) -> (key: String)
    ensures
        key@ == STORE_KEY_EVENT_SEQ@ + wf_id@,
{
    prefixed(STORE_KEY_EVENT_SEQ, wf_id)
}

/// Where a workflow's buffered signals are stored.
pub fn signals_key(wf_id: &WorkflowId) -> (key: String)
    ensures
        key@ == STORE_KEY_SIGNALS@ + wf_id@,
{
    prefixed(STORE_KEY_SIGNALS, wf_id)
}

/// The workflow that a key under `prefix` belongs to. A key without the prefix stands for
/// itself.
pub fn workflow_of_key(prefix: &str, key: &str) -> (wf_id: WorkflowId)
    ensures
        prefix@.is_prefix_of(key@) ==> key@ == prefix@ + wf_id@,
        !prefix@.is_prefix_of(key@) ==> wf_id@ == key@,
{
    match without_prefix(key, prefix) {
        Some(rest) => WorkflowId(rest.to_owned()),
        None => WorkflowId(key.to_owned()),
    }
}

/// Different workflows never share a key under one prefix.
pub proof fn law_keys_distinct(prefix: Seq<char>, a: Seq<char>, b: Seq<char>)
    requires
        prefix + a == prefix + b,
    ensures
        a == b,
{
    assert(a =~= (prefix + a).skip(prefix.len() as int));
    assert(b =~= (prefix + b).skip(prefix.len() as int));
}

} // verus!
