//! Policy checks over a finished scan: a cap on the total, tags that
//! require an issue reference, and tags that are denied outright.

use vstd::prelude::*;
use crate::model::{ScanResult, TodoItem, tag_text};
use crate::strutil::{upper_chars, ascii_upper, str_eq, dec_str, usize_to_string};

verus! {

/// The rules a caller may enable; an unset rule checks nothing.
#[derive(Debug)]
pub struct PolicyConfig {
    /// Maximum number of items allowed in total.
    pub max_todos: Option<usize>,
    /// Tags that require an issue reference.
    pub require_issue: Option<Vec<String>>,
    /// Tags that are denied outright.
    pub deny_tags: Option<Vec<String>>,
    /// Maximum age in days, usable only with git enrichment.
    pub max_age_days: Option<u64>,
}

impl Default for PolicyConfig {
    /// A configuration with every rule disabled.
    fn default() -> (r: PolicyConfig)
        ensures
            r.max_todos is None,
            r.require_issue is None,
            r.deny_tags is None,
            r.max_age_days is None,
    {
        PolicyConfig { max_todos: None, require_issue: None, deny_tags: None, max_age_days: None }
    }
}

/// One failed rule, with the place it failed at where one exists.
#[derive(Debug)]
pub struct PolicyViolation {
    pub rule: String,
    pub message: String,
    pub file: Option<String>,
    pub line: Option<usize>,
    pub severity: ViolationSeverity,
}

#[derive(Debug, Clone, PartialEq, Eq)]
pub enum ViolationSeverity {
    Error,
    Warning,
}

/// The fields of one violation, at the specification level.
#[verifier::ext_equal]
pub ghost struct ViolV {
    pub rule: Seq<char>,
    pub message: Seq<char>,
    pub file: Option<Seq<char>>,
    pub line: Option<int>,
}

pub open spec fn viol_of(v: PolicyViolation) -> ViolV {
    ViolV {
        rule: v.rule@,
        message: v.message@,
        file: match v.file {
            Some(f) => Some(f@),
            None => None,
        },
        line: match v.line {
            Some(l) => Some(l as int),
            None => None,
        },
    }
}

pub open spec fn viols_of(vs: Seq<PolicyViolation>) -> Seq<ViolV> {
    vs.map_values(|v: PolicyViolation| viol_of(v))
}

/// The tag's display text, upper-cased, equals some listed tag upper-cased.
pub open spec fn tag_listed(tags: Seq<String>, item: TodoItem) -> bool {
    exists|k: int|
        0 <= k < tags.len() && upper_chars((#[trigger] tags[k])@) == upper_chars(
            tag_text(item.tag),
        )
}

/// The violation reported when the total exceeds the cap.
pub open spec fn max_todos_viol(total: int, max: int) -> ViolV {
    ViolV {
        rule: "max_todos"@,
        message: "Found "@ + dec_str(total) + " TODOs, maximum allowed is "@ + dec_str(max),
        file: None,
        line: None,
    }
}

/// The violation reported for an item that needs an issue reference.
pub open spec fn require_issue_viol(item: TodoItem) -> ViolV {
    ViolV {
        rule: "require_issue"@,
        message: tag_text(item.tag) + " at "@ + item.file@ + ":"@ + dec_str(item.line as int)
            + " requires an issue reference"@,
        file: Some(item.file@),
        line: Some(item.line as int),
    }
}

/// The violation reported for an item with a denied tag.
pub open spec fn deny_tags_viol(item: TodoItem) -> ViolV {
    ViolV {
        rule: "deny_tags"@,
        message: "Denied tag "@ + tag_text(item.tag) + " found at "@ + item.file@ + ":"@
            + dec_str(item.line as int),
        file: Some(item.file@),
        line: Some(item.line as int),
    }
}

/// The issue-requirement violations of the items from index `i` on.
pub open spec fn require_issue_viols(items: Seq<TodoItem>, tags: Seq<String>, i: int) -> Seq<
    ViolV,
>
    decreases items.len() - i,
{
    if i < 0 || i >= items.len() {
        Seq::empty()
    } else {
        (if tag_listed(tags, items[i]) && items[i].issue is None {
            seq![require_issue_viol(items[i])]
        } else {
            Seq::empty()
        }) + require_issue_viols(items, tags, i + 1)
    }
}

/// The denied-tag violations of the items from index `i` on.
pub open spec fn deny_tags_viols(items: Seq<TodoItem>, tags: Seq<String>, i: int) -> Seq<ViolV>
    decreases items.len() - i,
{
    if i < 0 || i >= items.len() {
        Seq::empty()
    } else {
        (if tag_listed(tags, items[i]) {
            seq![deny_tags_viol(items[i])]
        } else {
            Seq::empty()
        }) + deny_tags_viols(items, tags, i + 1)
    }
}

/// Everything `check_policies` reports, in order: the total cap first, then
/// per-item issue requirements, then per-item denied tags.
pub open spec fn policy_viols(result: ScanResult, config: PolicyConfig) -> Seq<ViolV> {
    (match config.max_todos {
        Some(max) => if result.stats.total_todos > max {
            seq![max_todos_viol(result.stats.total_todos as int, max as int)]
        } else {
            Seq::empty()
        },
        None => Seq::empty(),
    }) + (match config.require_issue {
        Some(tags) => require_issue_viols(result.items@, tags@, 0),
        None => Seq::empty(),
    }) + (match config.deny_tags {
        Some(tags) => deny_tags_viols(result.items@, tags@, 0),
        None => Seq::empty(),
    })
}

fn tag_listed_exec(tags: &Vec<String>, item: &TodoItem) -> (r: bool)
    ensures
        r == tag_listed(tags@, *item),
{
    let tag_upper = ascii_upper(item.tag.as_str());
    let n = tags.len();
    let mut k: usize = 0;
    while k < n
        invariant
            n == tags@.len(),
            k <= n,
            tag_upper@ == upper_chars(tag_text(item.tag)),
            forall|j: int|
                0 <= j < k ==> upper_chars((#[trigger] tags@[j])@) != upper_chars(
                    tag_text(item.tag),
                ),
        decreases n - k,
    {
        let u = ascii_upper(tags[k].as_str());
        if str_eq(u.as_str(), tag_upper.as_str()) {
            return true;
        }
        k += 1;
    }
    false
}

/// Evaluates the enabled policies against a scan result. Every violation is
/// an error; the cap violation carries no location, the per-item ones carry
/// the item's file and line. An empty configuration reports nothing.
pub fn check_policies(result: &ScanResult, config: &PolicyConfig) -> (r: Vec<PolicyViolation>)
    ensures
        viols_of(r@) == policy_viols(*result, *config),
        forall|j: int| 0 <= j < r@.len() ==> (#[trigger] r@[j]).severity is Error,
{
    let mut violations: Vec<PolicyViolation> = Vec::new();
    proof {
        assert(viols_of(violations@) =~= Seq::<ViolV>::empty());
    }
    match config.max_todos {
        Some(max) => {
            if result.stats.total_todos > max {
                let mut message = String::from_str("Found ");
                message.append(usize_to_string(result.stats.total_todos).as_str());
                message.append(" TODOs, maximum allowed is ");
                message.append(usize_to_string(max).as_str());
                let v = PolicyViolation {
                    rule: String::from_str("max_todos"),
                    message,
                    file: None,
                    line: None,
                    severity: ViolationSeverity::Error,
                };
                proof {
                    assert(viol_of(v) =~~= max_todos_viol(
                        result.stats.total_todos as int,
                        max as int,
                    ));
                }
                violations.push(v);
                proof {
                    assert(viols_of(violations@) =~= seq![
                        max_todos_viol(result.stats.total_todos as int, max as int),
                    ]);
                }
            }
        },
        None => {},
    }
    let ghost head = viols_of(violations@);
    match &config.require_issue {
        Some(require_tags) => {
            let n = result.items.len();
            let mut i: usize = 0;
            proof {
                assert(head + require_issue_viols(result.items@, require_tags@, 0)
                    =~= viols_of(violations@) + require_issue_viols(
                    result.items@,
                    require_tags@,
                    0,
                ));
            }
            while i < n
                invariant
                    n == result.items@.len(),
                    i <= n,
                    head + require_issue_viols(result.items@, require_tags@, 0) =~= viols_of(
                        violations@,
                    ) + require_issue_viols(result.items@, require_tags@, i as int),
                    forall|j: int|
                        0 <= j < violations@.len() ==> (#[trigger] violations@[j]).severity
                            is Error,
                decreases n - i,
            {
                let ghost prev = violations@;
                let item = &result.items[i];
                if tag_listed_exec(require_tags, item) && item.issue.is_none() {
                    let mut message = String::from_str(item.tag.as_str());
                    message.append(" at ");
                    message.append(item.file.as_str());
                    message.append(":");
                    message.append(usize_to_string(item.line).as_str());
                    message.append(" requires an issue reference");
                    let v = PolicyViolation {
                        rule: String::from_str("require_issue"),
                        message,
                        file: Some(item.file.clone()),
                        line: Some(item.line),
                        severity: ViolationSeverity::Error,
                    };
                    proof {
                        assert(viol_of(v) =~~= require_issue_viol(result.items@[i as int]));
                    }
                    violations.push(v);
                    proof {
                        assert(viols_of(violations@) =~= viols_of(prev).push(viol_of(v)));
                        assert(head + require_issue_viols(result.items@, require_tags@, 0)
                            =~= viols_of(violations@) + require_issue_viols(
                            result.items@,
                            require_tags@,
                            i + 1,
                        ));
                    }
                } else {
                    proof {
                        assert(require_issue_viols(result.items@, require_tags@, i as int)
                            =~= require_issue_viols(result.items@, require_tags@, i + 1));
                    }
                }
                i += 1;
            }
        },
        None => {},
    }
    let ghost head2 = viols_of(violations@);
    match &config.deny_tags {
        Some(deny) => {
            let n = result.items.len();
            let mut i: usize = 0;
            proof {
                assert(head2 + deny_tags_viols(result.items@, deny@, 0) =~= viols_of(violations@)
                    + deny_tags_viols(result.items@, deny@, 0));
            }
            while i < n
                invariant
                    n == result.items@.len(),
                    i <= n,
                    head2 + deny_tags_viols(result.items@, deny@, 0) =~= viols_of(violations@)
                        + deny_tags_viols(result.items@, deny@, i as int),
                    forall|j: int|
                        0 <= j < violations@.len() ==> (#[trigger] violations@[j]).severity
                            is Error,
                decreases n - i,
            {
                let ghost prev = violations@;
                let item = &result.items[i];
                if tag_listed_exec(deny, item) {
                    let mut message = String::from_str("Denied tag ");
                    message.append(item.tag.as_str());
                    message.append(" found at ");
                    message.append(item.file.as_str());
                    message.append(":");
                    message.append(usize_to_string(item.line).as_str());
                    let v = PolicyViolation {
                        rule: String::from_str("deny_tags"),
                        message,
                        file: Some(item.file.clone()),
                        line: Some(item.line),
                        severity: ViolationSeverity::Error,
                    };
                    proof {
                        assert(viol_of(v) =~~= deny_tags_viol(result.items@[i as int]));
                    }
                    violations.push(v);
                    proof {
                        assert(viols_of(violations@) =~= viols_of(prev).push(viol_of(v)));
                        assert(head2 + deny_tags_viols(result.items@, deny@, 0) =~= viols_of(
                            violations@,
                        ) + deny_tags_viols(result.items@, deny@, i + 1));
                    }
                } else {
                    proof {
                        assert(deny_tags_viols(result.items@, deny@, i as int) =~= deny_tags_viols(
                            result.items@,
                            deny@,
                            i + 1,
                        ));
                    }
                }
                i += 1;
            }
        },
        None => {},
    }
    proof {
        assert(viols_of(violations@) =~= policy_viols(*result, *config));
    }
    violations
}

} // verus!
