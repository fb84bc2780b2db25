//! The request arbiter: on an inbound request, consult the rule store; if
//! no rule decides, park the request in the pending registry; on an inbound
//! decision, optionally persist a remembered rule and then release the
//! original caller.
//!
//! Precedence is deny-wins: the deny list is consulted first, so a request
//! matched by both lists is denied.

use vstd::prelude::*;
use vstd::string::StringExecFns;

use crate::matcher::spec_matches;
use crate::matcher::match_pattern;
use crate::pattern::format_pattern_spec;
use crate::pattern::verbatim_pattern;
use crate::pattern::view_opt;
use crate::registry::contains_id;
use crate::registry::register_spec;
use crate::registry::remove_id_spec;
use crate::registry::resolved_slot_spec;
use crate::registry::PendingRegistry;
use crate::storage::add_rule_spec;
use crate::storage::PermissionStorage;

verus! {

/// One attempted operation, as the external agent reports it. `command`
/// models the `command` field of the tool-specific structured payload,
/// when the payload carries one.
pub struct PermissionRequest {
    pub id: String,
    pub session_id: String,
    pub tool: String,
    pub path: String,
    pub command: Option<String>,
}

/// The answer delivered to a waiting caller: `decision` is `"approve"` or
/// `"deny"`.
pub struct PermissionDecision {
    pub decision: String,
}

/// What the stored rules say about a request.
#[derive(Clone, Copy, Debug, PartialEq, Eq, Structural)]
pub enum RuleVerdict {
    Approved,
    Denied,
    Undecided,
}

/// How the arbiter answered an inbound request.
pub enum ArbitrationOutcome {
    /// A rule decided the request; the decision goes straight back.
    Decided(PermissionDecision),
    /// No rule decided; the request now waits in the pending registry.
    Suspended,
    /// The request's identifier is already pending: a caller bug, and
    /// nothing was registered.
    DuplicateRequest,
}

/// The canonical request string `Tool(path)`.
pub open spec fn canonical_spec(tool: Seq<char>, path: Seq<char>) -> Seq<char> {
    tool + "("@ + path + ")"@
}

/// Whether any rule of `list` covers the request string `req`.
pub open spec fn some_rule_matches(list: Seq<Seq<char>>, req: Seq<char>) -> bool {
    exists|k: int| 0 <= k < list.len() && spec_matches(list[k], req)
}

/// The canonical request string `Tool(path)` for a concrete invocation.
pub fn canonical_request(tool: &str, path: &str) -> (r: String)
    ensures
        r@ == canonical_spec(tool@, path@),
{
    verbatim_pattern(tool, path)
}

/// Whether any rule of `rules` covers the request string `request`.
fn any_match(rules: &Vec<String>, request: &str) -> (r: bool)
    ensures
        r == some_rule_matches(rules.deep_view(), request@),
{
    let n = rules.len();
    let mut i: usize = 0;
    while i < n
        invariant
            i <= n,
            n == rules.len(),
            forall|k: int| 0 <= k < i ==> !spec_matches(rules.deep_view()[k], request@),
        decreases n - i,
    {
        proof {
            assert(rules.deep_view()[i as int] == rules@[i as int]@);
        }
        if match_pattern(rules[i].as_str(), request) {
            proof {
                assert(some_rule_matches(rules.deep_view(), request@)) by {
                    assert(spec_matches(rules.deep_view()[i as int], request@));
                }
            }
            return true;
        }
        i = i + 1;
    }
    proof {
        if some_rule_matches(rules.deep_view(), request@) {
            let k = choose|k: int|
                0 <= k < rules.deep_view().len() && spec_matches(rules.deep_view()[k], request@);
            assert(!spec_matches(rules.deep_view()[k], request@));
        }
    }
    false
}

impl PermissionStorage {
    /// What the stored rules say about the canonical request string
    /// `request`. The deny list is consulted first, so deny wins over
    /// allow; if neither list holds a covering rule, the request is
    /// undecided and must go to a human.
    pub fn decide(&self, request: &str) -> (v: RuleVerdict)
        ensures
            (v == RuleVerdict::Denied) <==> some_rule_matches(self.spec_deny(), request@),
            (v == RuleVerdict::Approved) <==> (!some_rule_matches(self.spec_deny(), request@)
                && some_rule_matches(self.spec_allow(), request@)),
            (v == RuleVerdict::Undecided) <==> (!some_rule_matches(self.spec_deny(), request@)
                && !some_rule_matches(self.spec_allow(), request@)),
    {
        if any_match(self.deny_list(), request) {
            RuleVerdict::Denied
        } else if any_match(self.allow_list(), request) {
            RuleVerdict::Approved
        } else {
            RuleVerdict::Undecided
        }
    }
}

/// Arbitrate one inbound request against the stored rules: answer at once
/// when a rule decides (deny consulted first), otherwise register `slot`
/// in the pending registry under the request's identifier and report the
/// request as suspended. The caller then waits on the channel it kept for
/// `slot` until a decision resolves the entry.
pub fn arbitrate<S>(
    storage: &PermissionStorage,
    pending: &mut PendingRegistry<S>,
    request: &PermissionRequest,
    slot: S,
) -> (o: ArbitrationOutcome)
    requires
        old(pending).wf(),
    ensures
        final(pending).wf(),
        ({
            let req = canonical_spec(request.tool@, request.path@);
            let denied = some_rule_matches(storage.spec_deny(), req);
            let allowed = some_rule_matches(storage.spec_allow(), req);
            if denied {
                (o matches ArbitrationOutcome::Decided(d) && d.decision@ == "deny"@)
                    && final(pending).spec_entries() == old(pending).spec_entries()
            } else if allowed {
                (o matches ArbitrationOutcome::Decided(d) && d.decision@ == "approve"@)
                    && final(pending).spec_entries() == old(pending).spec_entries()
            } else if contains_id(old(pending).spec_entries(), request.id@) {
                (o is DuplicateRequest)
                    && final(pending).spec_entries() == old(pending).spec_entries()
            } else {
                (o is Suspended) && final(pending).spec_entries() == register_spec(
                    old(pending).spec_entries(),
                    request.id,
                    slot,
                )
            }
        }),
{
    let canonical = canonical_request(request.tool.as_str(), request.path.as_str());
    let verdict = storage.decide(canonical.as_str());
    match verdict {
        RuleVerdict::Denied => {
            ArbitrationOutcome::Decided(PermissionDecision { decision: String::from_str("deny") })
        },
        RuleVerdict::Approved => {
            ArbitrationOutcome::Decided(
                PermissionDecision { decision: String::from_str("approve") },
            )
        },
        RuleVerdict::Undecided => {
            let id = request.id.clone();
            if pending.register(id, slot) {
                ArbitrationOutcome::Suspended
            } else {
                ArbitrationOutcome::DuplicateRequest
            }
        },
    }
}

/// Handle one inbound decision from the interactive surface. When the
/// human chose to remember the outcome, the derived rule is appended to
/// the matching list first; only then is the pending entry for
/// `request_id` resolved, so a racing duplicate request already observes
/// the new rule. The returned slot, if any, is the one registered under
/// `request_id`; the caller delivers the returned decision through it
/// after this call returns. A decision for an unknown or already-resolved
/// identifier mutates the rules as asked but releases nobody.
pub fn respond<S>(
    storage: &mut PermissionStorage,
    pending: &mut PendingRegistry<S>,
    request_id: &String,
    allowed: bool,
    always_allow: bool,
    always_deny: bool,
    tool: &str,
    path: &str,
    input: Option<&str>,
) -> (r: Option<(S, PermissionDecision)>)
    requires
        old(storage).wf(),
        old(pending).wf(),
    ensures
        final(storage).wf(),
        final(pending).wf(),
        ({
            let pat = format_pattern_spec(tool@, path@, view_opt(input));
            if always_allow {
                final(storage).spec_allow() == add_rule_spec(old(storage).spec_allow(), pat)
                    && final(storage).spec_deny() == old(storage).spec_deny()
            } else if always_deny {
                final(storage).spec_deny() == add_rule_spec(old(storage).spec_deny(), pat)
                    && final(storage).spec_allow() == old(storage).spec_allow()
            } else {
                final(storage).spec_allow() == old(storage).spec_allow()
                    && final(storage).spec_deny() == old(storage).spec_deny()
            }
        }),
        final(pending).spec_entries() == remove_id_spec(old(pending).spec_entries(), request_id@),
        ({
            match resolved_slot_spec(old(pending).spec_entries(), request_id@) {
                Some(s) => (r matches Some(p) && p.0 == s && p.1.decision@ == (if allowed {
                    "approve"@
                } else {
                    "deny"@
                })),
                None => r is None,
            }
        }),
{
    if always_allow {
        let pat = PermissionStorage::format_pattern(tool, path, input);
        let _ = storage.add_allow_rule(pat);
    } else if always_deny {
        let pat = PermissionStorage::format_pattern(tool, path, input);
        let _ = storage.add_deny_rule(pat);
    }
    match pending.resolve(request_id) {
        Some(slot) => {
            let decision = PermissionDecision {
                decision: if allowed {
                    String::from_str("approve")
                } else {
                    String::from_str("deny")
                },
            };
            Some((slot, decision))
        },
        None => None,
    }
}

} // verus!
