//! Workflow nodes and their dispatch: a node names an operation, carries a
//! parameter map and a header mapping, and resolves to one concrete action.
//! Executing the action — fetching, transforming, publishing — is the
//! caller's work; deciding what to do is decided, and verified, here.
use vstd::prelude::*;

use crate::filter::{Filter, FilterOperator, FilterV};
use crate::mapping::HeaderMapping;
use crate::table::FlowError;
use crate::text::{all_digits, digits_val, str_eq};

verus! {

/// The operations a node can name.
#[derive(Clone, Copy, Debug, PartialEq, Eq, Structural)]
pub enum WorkflowNodeKind {
    QuarryQueryLatest,
    Sparql,
    PetScan,
    PagePile,
    AListBuildingTool,
    UserEdits,
    WdFist,
    Join,
    Filter,
    FilterPetScan,
    FilterSort,
    Generator,
}

/// One node parameter value, freed of its transport encoding.
#[derive(Clone, Debug)]
pub enum ParamValue {
    Text(String),
    UInt(u64),
    Int(i64),
    Boolean(bool),
    Null,
}

/// The mathematical value of a parameter.
pub enum ParamV {
    Text(Seq<char>),
    UInt(u64),
    Int(i64),
    Boolean(bool),
    Null,
}

impl View for ParamValue {
    type V = ParamV;

    open spec fn view(&self) -> ParamV {
        match self {
            ParamValue::Text(s) => ParamV::Text(s@),
            ParamValue::UInt(u) => ParamV::UInt(*u),
            ParamValue::Int(i) => ParamV::Int(*i),
            ParamValue::Boolean(b) => ParamV::Boolean(*b),
            ParamValue::Null => ParamV::Null,
        }
    }
}

/// One node of a workflow.
#[derive(Clone, Debug)]
pub struct WorkflowNode {
    pub kind: WorkflowNodeKind,
    pub parameters: Vec<(String, ParamValue)>,
    pub header_mapping: HeaderMapping,
}

/// The parameter list's value.
pub open spec fn params_view(params: Vec<(String, ParamValue)>) -> Seq<(Seq<char>, ParamV)> {
    params@.map_values(|p: (String, ParamValue)| (p.0@, p.1@))
}

/// The first value bound to `key`, if any.
pub open spec fn param_lookup(params: Seq<(Seq<char>, ParamV)>, key: Seq<char>) -> Option<ParamV>
    decreases params.len(),
{
    if params.len() == 0 {
        None
    } else if params[0].0 == key {
        Some(params[0].1)
    } else {
        param_lookup(params.drop_first(), key)
    }
}

/// The string parameter `key` names, if it is text.
pub open spec fn spec_param_string(params: Seq<(Seq<char>, ParamV)>, key: Seq<char>) -> Option<
    Seq<char>,
> {
    match param_lookup(params, key) {
        Some(ParamV::Text(s)) => Some(s),
        _ => None,
    }
}

/// The unsigned parameter `key` names: a native unsigned number, or a string
/// of digits.
pub open spec fn spec_param_u64(params: Seq<(Seq<char>, ParamV)>, key: Seq<char>) -> Option<u64> {
    match param_lookup(params, key) {
        Some(ParamV::UInt(u)) => Some(u),
        Some(ParamV::Text(s)) => if s.len() > 0 && all_digits(s) && digits_val(s) <= u64::MAX {
            Some(digits_val(s) as u64)
        } else {
            None
        },
        _ => None,
    }
}

/// The boolean parameter `key` names: a native boolean, or a non-zero
/// unsigned number.
pub open spec fn spec_param_bool(params: Seq<(Seq<char>, ParamV)>, key: Seq<char>) -> Option<bool> {
    match param_lookup(params, key) {
        Some(ParamV::Boolean(b)) => Some(b),
        _ => match spec_param_u64(params, key) {
            Some(u) => Some(u > 0),
            None => None,
        },
    }
}

impl WorkflowNode {
    fn param<'a>(&'a self, key: &str) -> (r: Option<&'a ParamValue>)
        ensures
            match r {
                Some(v) => param_lookup(params_view(self.parameters), key@) == Some(v@),
                None => param_lookup(params_view(self.parameters), key@) is None,
            },
    {
        let ghost pv = params_view(self.parameters);
        let n = self.parameters.len();
        let mut i: usize = 0;
        proof {
            assert(pv.skip(0) =~= pv);
        }
        while i < n
            invariant
                n == self.parameters@.len(),
                i <= n,
                pv == params_view(self.parameters),
                param_lookup(pv.skip(i as int), key@) == param_lookup(pv, key@),
            decreases n - i,
        {
            proof {
                assert(pv.skip(i as int)[0] == (self.parameters@[i as int].0@, self.parameters@[i as int].1@));
                assert(pv.skip(i as int).drop_first() =~= pv.skip(i as int + 1));
            }
            if str_eq(self.parameters[i].0.as_str(), key) {
                return Some(&self.parameters[i].1);
            }
            i = i + 1;
        }
        proof {
            assert(pv.skip(n as int).len() == 0);
        }
        None
    }

    /// The string parameter `key` names; `BadParameter` when missing or not
    /// text.
    pub fn param_string(&self, key: &str) -> (r: Result<String, FlowError>)
        ensures
            match r {
                Ok(s) => spec_param_string(params_view(self.parameters), key@) == Some(s@),
                Err(FlowError::BadParameter(k)) => k@ == key@ && spec_param_string(
                    params_view(self.parameters),
                    key@,
                ) is None,
                Err(_) => false,
            },
    {
        match self.param(key) {
            Some(ParamValue::Text(s)) => Ok(s.clone()),
            _ => Err(FlowError::BadParameter(key.to_owned())),
        }
    }

    /// The unsigned parameter `key` names: a native unsigned number or a
    /// digit string; `BadParameter` otherwise.
    pub fn param_u64(&self, key: &str) -> (r: Result<u64, FlowError>)
        ensures
            match r {
                Ok(u) => spec_param_u64(params_view(self.parameters), key@) == Some(u),
                Err(FlowError::BadParameter(k)) => k@ == key@ && spec_param_u64(
                    params_view(self.parameters),
                    key@,
                ) is None,
                Err(_) => false,
            },
    {
        match self.param(key) {
            Some(ParamValue::UInt(u)) => Ok(*u),
            Some(ParamValue::Text(s)) => match crate::text::parse_u64(s.as_str()) {
                Some(u) => Ok(u),
                None => Err(FlowError::BadParameter(key.to_owned())),
            },
            _ => Err(FlowError::BadParameter(key.to_owned())),
        }
    }

    /// The boolean parameter `key` names: a native boolean or a non-zero
    /// unsigned number; `BadParameter` otherwise.
    pub fn param_bool(&self, key: &str) -> (r: Result<bool, FlowError>)
        ensures
            match r {
                Ok(b) => spec_param_bool(params_view(self.parameters), key@) == Some(b),
                Err(FlowError::BadParameter(k)) => k@ == key@ && spec_param_bool(
                    params_view(self.parameters),
                    key@,
                ) is None,
                Err(_) => false,
            },
    {
        match self.param(key) {
            Some(ParamValue::Boolean(b)) => Ok(*b),
            _ => match self.param_u64(key) {
                Ok(u) => Ok(u > 0),
                Err(_) => Err(FlowError::BadParameter(key.to_owned())),
            },
        }
    }
}

/// The one concrete piece of work a node resolves to. Fetches and the
/// publish are network work and run outside the library; the transforms run
/// on tables the caller loads.
#[derive(Debug)]
pub enum NodeAction {
    FetchQuarry { query_id: u64 },
    FetchSparql { sparql: String },
    FetchPetScan { psid: u64 },
    FetchPagePile { pile_id: u64 },
    FetchAListBuildingTool { wiki: String, qid: String },
    FetchUserEdits { url: String },
    FetchWdFist { url: String },
    RunInnerJoin { key: String, uuids: Vec<String> },
    RunMergeUnique { key: String, uuids: Vec<String> },
    RunFilter { filter: Filter, uuid: String },
    RunFilterSort { key: String, reverse: bool, uuid: String },
    RunFilterPetScan { key: String, psid: u64, uuid: String },
    Publish { wiki: String, page: String, uuid: String },
}

/// The mathematical value of a node action.
pub enum NodeActionV {
    FetchQuarry { query_id: u64 },
    FetchSparql { sparql: Seq<char> },
    FetchPetScan { psid: u64 },
    FetchPagePile { pile_id: u64 },
    FetchAListBuildingTool { wiki: Seq<char>, qid: Seq<char> },
    FetchUserEdits { url: Seq<char> },
    FetchWdFist { url: Seq<char> },
    RunInnerJoin { key: Seq<char>, uuids: Seq<Seq<char>> },
    RunMergeUnique { key: Seq<char>, uuids: Seq<Seq<char>> },
    RunFilter { filter: FilterV },
    RunFilterSort { key: Seq<char>, reverse: bool, uuid: Seq<char> },
    RunFilterPetScan { key: Seq<char>, psid: u64, uuid: Seq<char> },
    Publish { wiki: Seq<char>, page: Seq<char>, uuid: Seq<char> },
}

impl View for NodeAction {
    type V = NodeActionV;

    open spec fn view(&self) -> NodeActionV {
        match self {
            NodeAction::FetchQuarry { query_id } => NodeActionV::FetchQuarry {
                query_id: *query_id,
            },
            NodeAction::FetchSparql { sparql } => NodeActionV::FetchSparql { sparql: sparql@ },
            NodeAction::FetchPetScan { psid } => NodeActionV::FetchPetScan { psid: *psid },
            NodeAction::FetchPagePile { pile_id } => NodeActionV::FetchPagePile {
                pile_id: *pile_id,
            },
            NodeAction::FetchAListBuildingTool { wiki, qid } => NodeActionV::FetchAListBuildingTool {
                wiki: wiki@,
                qid: qid@,
            },
            NodeAction::FetchUserEdits { url } => NodeActionV::FetchUserEdits { url: url@ },
            NodeAction::FetchWdFist { url } => NodeActionV::FetchWdFist { url: url@ },
            NodeAction::RunInnerJoin { key, uuids } => NodeActionV::RunInnerJoin {
                key: key@,
                uuids: crate::text::strings_view(uuids@),
            },
            NodeAction::RunMergeUnique { key, uuids } => NodeActionV::RunMergeUnique {
                key: key@,
                uuids: crate::text::strings_view(uuids@),
            },
            NodeAction::RunFilter { filter, uuid } => NodeActionV::RunFilter { filter: filter@ },
            NodeAction::RunFilterSort { key, reverse, uuid } => NodeActionV::RunFilterSort {
                key: key@,
                reverse: *reverse,
                uuid: uuid@,
            },
            NodeAction::RunFilterPetScan { key, psid, uuid } => NodeActionV::RunFilterPetScan {
                key: key@,
                psid: *psid,
                uuid: uuid@,
            },
            NodeAction::Publish { wiki, page, uuid } => NodeActionV::Publish {
                wiki: wiki@,
                page: page@,
                uuid: uuid@,
            },
        }
    }
}

impl WorkflowNode {
    /// Resolves this node to its action: adapters take their source spec
    /// from the parameters, transforms take the input artifacts and their
    /// parameters, the generator takes its target page. Fails with
    /// `BadParameter` on a missing or ill-typed parameter or an unknown
    /// mode, `NoInputs` when a transform has none, and `SingleInput` where a
    /// filter needs exactly one.
    pub fn plan_action(&self, inputs: &Vec<String>) -> (r: Result<NodeAction, FlowError>)
        ensures
            ({
                let p = params_view(self.parameters);
                let ins = crate::text::strings_view(inputs@);
                match r {
                    Ok(a) => match self.kind {
                        WorkflowNodeKind::QuarryQueryLatest => a@ == (NodeActionV::FetchQuarry {
                            query_id: spec_param_u64(p, "quarry_query_id"@).unwrap(),
                        }) && spec_param_u64(p, "quarry_query_id"@) is Some,
                        WorkflowNodeKind::Sparql => a@ == (NodeActionV::FetchSparql {
                            sparql: spec_param_string(p, "sparql"@).unwrap(),
                        }) && spec_param_string(p, "sparql"@) is Some,
                        WorkflowNodeKind::PetScan => a@ == (NodeActionV::FetchPetScan {
                            psid: spec_param_u64(p, "psid"@).unwrap(),
                        }) && spec_param_u64(p, "psid"@) is Some,
                        WorkflowNodeKind::PagePile => a@ == (NodeActionV::FetchPagePile {
                            pile_id: spec_param_u64(p, "pagepile_id"@).unwrap(),
                        }) && spec_param_u64(p, "pagepile_id"@) is Some,
                        WorkflowNodeKind::AListBuildingTool => a@ == (
                        NodeActionV::FetchAListBuildingTool {
                            wiki: spec_param_string(p, "wiki"@).unwrap(),
                            qid: spec_param_string(p, "qid"@).unwrap(),
                        }) && spec_param_string(p, "wiki"@) is Some && spec_param_string(
                            p,
                            "qid"@,
                        ) is Some,
                        WorkflowNodeKind::UserEdits => a@ == (NodeActionV::FetchUserEdits {
                            url: spec_param_string(p, "user_edits_url"@).unwrap(),
                        }) && spec_param_string(p, "user_edits_url"@) is Some,
                        WorkflowNodeKind::WdFist => a@ == (NodeActionV::FetchWdFist {
                            url: spec_param_string(p, "wdfist_url"@).unwrap(),
                        }) && spec_param_string(p, "wdfist_url"@) is Some,
                        WorkflowNodeKind::Join => (spec_param_string(p, "mode"@) == Some(
                            "inner_join_on_key"@,
                        ) && a@ == (NodeActionV::RunInnerJoin {
                            key: spec_param_string(p, "join_key"@).unwrap(),
                            uuids: ins,
                        }) && spec_param_string(p, "join_key"@) is Some) || (spec_param_string(
                            p,
                            "mode"@,
                        ) == Some("merge_unique"@) && a@ == (NodeActionV::RunMergeUnique {
                            key: spec_param_string(p, "join_key"@).unwrap(),
                            uuids: ins,
                        }) && spec_param_string(p, "join_key"@) is Some),
                        WorkflowNodeKind::Filter => ins.len() == 1 && a@ == (
                        NodeActionV::RunFilter {
                            filter: FilterV {
                                key: spec_param_string(p, "key"@).unwrap(),
                                subkey: spec_param_string(p, "subkey"@),
                                operator: spec_filter_operator(p),
                                value: spec_param_string(p, "value"@).unwrap(),
                                remove_matching: match spec_param_bool(p, "remove_matching"@) {
                                    Some(b) => b,
                                    None => false,
                                },
                            },
                        }) && spec_param_string(p, "key"@) is Some && spec_param_string(
                            p,
                            "value"@,
                        ) is Some,
                        WorkflowNodeKind::FilterSort => ins.len() == 1 && a@ == (
                        NodeActionV::RunFilterSort {
                            key: spec_param_string(p, "key"@).unwrap(),
                            reverse: spec_param_bool(p, "reverse"@).unwrap(),
                            uuid: ins[0],
                        }) && spec_param_string(p, "key"@) is Some && spec_param_bool(
                            p,
                            "reverse"@,
                        ) is Some,
                        WorkflowNodeKind::FilterPetScan => ins.len() == 1 && a@ == (
                        NodeActionV::RunFilterPetScan {
                            key: spec_param_string(p, "key"@).unwrap(),
                            psid: spec_param_u64(p, "psid"@).unwrap(),
                            uuid: ins[0],
                        }) && spec_param_string(p, "key"@) is Some && spec_param_u64(
                            p,
                            "psid"@,
                        ) is Some,
                        WorkflowNodeKind::Generator => spec_param_string(p, "mode"@) == Some(
                            "wikipage"@,
                        ) && ins.len() >= 1 && a@ == (NodeActionV::Publish {
                            wiki: spec_param_string(p, "wiki"@).unwrap(),
                            page: spec_param_string(p, "page"@).unwrap(),
                            uuid: ins[0],
                        }) && spec_param_string(p, "wiki"@) is Some && spec_param_string(
                            p,
                            "page"@,
                        ) is Some,
                    },
                    Err(_) => true,
                }
            }),
            plan_succeeds(
                self.kind,
                params_view(self.parameters),
                crate::text::strings_view(inputs@),
            ) ==> r is Ok,
    {
        match self.kind {
            WorkflowNodeKind::QuarryQueryLatest => {
                let id = self.param_u64("quarry_query_id")?;
                Ok(NodeAction::FetchQuarry { query_id: id })
            },
            WorkflowNodeKind::Sparql => {
                let sparql = self.param_string("sparql")?;
                Ok(NodeAction::FetchSparql { sparql })
            },
            WorkflowNodeKind::PetScan => {
                let psid = self.param_u64("psid")?;
                Ok(NodeAction::FetchPetScan { psid })
            },
            WorkflowNodeKind::PagePile => {
                let pile_id = self.param_u64("pagepile_id")?;
                Ok(NodeAction::FetchPagePile { pile_id })
            },
            WorkflowNodeKind::AListBuildingTool => {
                let wiki = self.param_string("wiki")?;
                let qid = self.param_string("qid")?;
                Ok(NodeAction::FetchAListBuildingTool { wiki, qid })
            },
            WorkflowNodeKind::UserEdits => {
                let url = self.param_string("user_edits_url")?;
                Ok(NodeAction::FetchUserEdits { url })
            },
            WorkflowNodeKind::WdFist => {
                let url = self.param_string("wdfist_url")?;
                Ok(NodeAction::FetchWdFist { url })
            },
            WorkflowNodeKind::Join => {
                let mode = self.param_string("mode")?;
                let key = self.param_string("join_key")?;
                let uuids = clone_strings(inputs);
                if str_eq(mode.as_str(), "inner_join_on_key") {
                    Ok(NodeAction::RunInnerJoin { key, uuids })
                } else if str_eq(mode.as_str(), "merge_unique") {
                    Ok(NodeAction::RunMergeUnique { key, uuids })
                } else {
                    Err(FlowError::BadParameter(mode))
                }
            },
            WorkflowNodeKind::Filter => {
                if inputs.len() == 0 {
                    return Err(FlowError::NoInputs);
                }
                if inputs.len() > 1 {
                    return Err(FlowError::SingleInput);
                }
                let operator = match self.param_string("operator") {
                    Ok(name) => match filter_operator_of(name.as_str()) {
                        Some(op) => op,
                        None => {
                            return Err(FlowError::BadParameter(name));
                        },
                    },
                    Err(e) => {
                        return Err(e);
                    },
                };
                let key = self.param_string("key")?;
                let subkey = match self.param_string("subkey") {
                    Ok(s) => Some(s),
                    Err(_) => None,
                };
                let value = self.param_string("value")?;
                let remove_matching = match self.param_bool("remove_matching") {
                    Ok(b) => b,
                    Err(_) => false,
                };
                let filter = Filter { key, subkey, operator, value, remove_matching };
                let uuid = inputs[0].clone();
                proof {
                    assert(crate::text::strings_view(inputs@)[0] == inputs@[0]@);
                }
                Ok(NodeAction::RunFilter { filter, uuid })
            },
            WorkflowNodeKind::FilterSort => {
                if inputs.len() == 0 {
                    return Err(FlowError::NoInputs);
                }
                if inputs.len() > 1 {
                    return Err(FlowError::SingleInput);
                }
                let key = self.param_string("key")?;
                let reverse = self.param_bool("reverse")?;
                let uuid = inputs[0].clone();
                proof {
                    assert(crate::text::strings_view(inputs@)[0] == inputs@[0]@);
                }
                Ok(NodeAction::RunFilterSort { key, reverse, uuid })
            },
            WorkflowNodeKind::FilterPetScan => {
                if inputs.len() == 0 {
                    return Err(FlowError::NoInputs);
                }
                if inputs.len() > 1 {
                    return Err(FlowError::SingleInput);
                }
                let key = self.param_string("key")?;
                let psid = self.param_u64("psid")?;
                let uuid = inputs[0].clone();
                proof {
                    assert(crate::text::strings_view(inputs@)[0] == inputs@[0]@);
                }
                Ok(NodeAction::RunFilterPetScan { key, psid, uuid })
            },
            WorkflowNodeKind::Generator => {
                let mode = self.param_string("mode")?;
                if !str_eq(mode.as_str(), "wikipage") {
                    return Err(FlowError::BadParameter(mode));
                }
                if inputs.len() == 0 {
                    return Err(FlowError::NoInputs);
                }
                let wiki = self.param_string("wiki")?;
                let page = self.param_string("page")?;
                let uuid = inputs[0].clone();
                proof {
                    assert(crate::text::strings_view(inputs@)[0] == inputs@[0]@);
                }
                Ok(NodeAction::Publish { wiki, page, uuid })
            },
        }
    }
}

/// When a node's action is owed: its parameters are present and well typed
/// and its inputs have the right arity.
pub open spec fn plan_succeeds(
    kind: WorkflowNodeKind,
    p: Seq<(Seq<char>, ParamV)>,
    ins: Seq<Seq<char>>,
) -> bool {
    match kind {
        WorkflowNodeKind::QuarryQueryLatest => spec_param_u64(p, "quarry_query_id"@) is Some,
        WorkflowNodeKind::Sparql => spec_param_string(p, "sparql"@) is Some,
        WorkflowNodeKind::PetScan => spec_param_u64(p, "psid"@) is Some,
        WorkflowNodeKind::PagePile => spec_param_u64(p, "pagepile_id"@) is Some,
        WorkflowNodeKind::AListBuildingTool => spec_param_string(p, "wiki"@) is Some
            && spec_param_string(p, "qid"@) is Some,
        WorkflowNodeKind::UserEdits => spec_param_string(p, "user_edits_url"@) is Some,
        WorkflowNodeKind::WdFist => spec_param_string(p, "wdfist_url"@) is Some,
        WorkflowNodeKind::Join => (spec_param_string(p, "mode"@) == Some("inner_join_on_key"@)
            || spec_param_string(p, "mode"@) == Some("merge_unique"@)) && spec_param_string(
            p,
            "join_key"@,
        ) is Some,
        WorkflowNodeKind::Filter => ins.len() == 1 && spec_param_string(p, "key"@) is Some
            && spec_param_string(p, "value"@) is Some && (match spec_param_string(p, "operator"@) {
            Some(name) => spec_operator_known(name),
            None => false,
        }),
        WorkflowNodeKind::FilterSort => ins.len() == 1 && spec_param_string(p, "key"@) is Some
            && spec_param_bool(p, "reverse"@) is Some,
        WorkflowNodeKind::FilterPetScan => ins.len() == 1 && spec_param_string(p, "key"@) is Some
            && spec_param_u64(p, "psid"@) is Some,
        WorkflowNodeKind::Generator => spec_param_string(p, "mode"@) == Some("wikipage"@)
            && ins.len() >= 1 && spec_param_string(p, "wiki"@) is Some && spec_param_string(
            p,
            "page"@,
        ) is Some,
    }
}

/// The operator the filter parameters name (the bare variant name, unlike
/// the quoted serialized form).
pub open spec fn spec_filter_operator(p: Seq<(Seq<char>, ParamV)>) -> FilterOperator {
    match spec_param_string(p, "operator"@) {
        Some(name) => spec_operator_of(name),
        None => FilterOperator::Equal,
    }
}

/// The operator a bare name denotes; an unknown name maps to `Equal` (the
/// planner rejects it before this default can matter).
pub open spec fn spec_operator_of(name: Seq<char>) -> FilterOperator {
    if name == "Equal"@ {
        FilterOperator::Equal
    } else if name == "Unequal"@ {
        FilterOperator::Unequal
    } else if name == "LargerThan"@ {
        FilterOperator::LargerThan
    } else if name == "SmallerThan"@ {
        FilterOperator::SmallerThan
    } else if name == "LargerOrEqualThan"@ {
        FilterOperator::LargerOrEqualThan
    } else if name == "SmallerOrEqualThan"@ {
        FilterOperator::SmallerOrEqualThan
    } else if name == "Regexp"@ {
        FilterOperator::Regexp
    } else {
        FilterOperator::Equal
    }
}

/// Whether a bare name denotes an operator.
pub open spec fn spec_operator_known(name: Seq<char>) -> bool {
    ||| name == "Equal"@
    ||| name == "Unequal"@
    ||| name == "LargerThan"@
    ||| name == "SmallerThan"@
    ||| name == "LargerOrEqualThan"@
    ||| name == "SmallerOrEqualThan"@
    ||| name == "Regexp"@
}

/// Reads an operator from its bare name.
pub fn filter_operator_of(name: &str) -> (r: Option<FilterOperator>)
    ensures
        r is Some <==> spec_operator_known(name@),
        r is Some ==> r.unwrap() == spec_operator_of(name@),
{
    if str_eq(name, "Equal") {
        Some(FilterOperator::Equal)
    } else if str_eq(name, "Unequal") {
        Some(FilterOperator::Unequal)
    } else if str_eq(name, "LargerThan") {
        Some(FilterOperator::LargerThan)
    } else if str_eq(name, "SmallerThan") {
        Some(FilterOperator::SmallerThan)
    } else if str_eq(name, "LargerOrEqualThan") {
        Some(FilterOperator::LargerOrEqualThan)
    } else if str_eq(name, "SmallerOrEqualThan") {
        Some(FilterOperator::SmallerOrEqualThan)
    } else if str_eq(name, "Regexp") {
        Some(FilterOperator::Regexp)
    } else {
        None
    }
}

/// A string-for-string copy of a list.
pub fn clone_strings(v: &Vec<String>) -> (r: Vec<String>)
    ensures
        crate::text::strings_view(r@) == crate::text::strings_view(v@),
{
    let mut r: Vec<String> = Vec::new();
    let n = v.len();
    let mut i: usize = 0;
    while i < n
        invariant
            n == v@.len(),
            i <= n,
            r@.len() == i,
            forall|j: int| 0 <= j < i ==> (#[trigger] r@[j])@ == v@[j]@,
        decreases n - i,
    {
        r.push(v[i].clone());
        i = i + 1;
    }
    proof {
        assert forall|j: int| 0 <= j < n implies crate::text::strings_view(r@)[j]
            == crate::text::strings_view(v@)[j] by {}
        assert(crate::text::strings_view(r@) =~= crate::text::strings_view(v@));
    }
    r
}

} // verus!
