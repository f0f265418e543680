//! Sort-key predicates and the native condition expressions they become.
//!
//! A query carries at most one sort-key predicate, ANDed against the fixed
//! partition-key equality clause. `Between` is inclusive on both ends.

use vstd::prelude::*;

use crate::keys::{is_prefix_of, lex_le, lex_lt, str_le, str_lt, str_starts_with, concat2};

verus! {

/// A sort-key predicate for one query.
#[derive(Debug)]
pub enum Condition {
    BeginsWith(String),
    Between(String, String),
    Eq(String),
    Ge(String),
    Gt(String),
    Le(String),
    Lt(String),
}

/// The mathematical value of a sort-key predicate.
#[verifier::ext_equal]
pub enum ConditionModel {
    BeginsWith(Seq<char>),
    Between(Seq<char>, Seq<char>),
    Eq(Seq<char>),
    Ge(Seq<char>),
    Gt(Seq<char>),
    Le(Seq<char>),
    Lt(Seq<char>),
}

impl View for Condition {
    type V = ConditionModel;

    open spec fn view(&self) -> ConditionModel {
        match self {
            Condition::BeginsWith(a) => ConditionModel::BeginsWith(a@),
            Condition::Between(a, b) => ConditionModel::Between(a@, b@),
            Condition::Eq(a) => ConditionModel::Eq(a@),
            Condition::Ge(a) => ConditionModel::Ge(a@),
            Condition::Gt(a) => ConditionModel::Gt(a@),
            Condition::Le(a) => ConditionModel::Le(a@),
            Condition::Lt(a) => ConditionModel::Lt(a@),
        }
    }
}

/// Whether a sort key satisfies a predicate.
pub open spec fn cond_matches(c: ConditionModel, sk: Seq<char>) -> bool {
    match c {
        ConditionModel::BeginsWith(a) => is_prefix_of(a, sk),
        ConditionModel::Between(a, b) => lex_le(a, sk) && lex_le(sk, b),
        ConditionModel::Eq(a) => sk == a,
        ConditionModel::Ge(a) => lex_le(a, sk),
        ConditionModel::Gt(a) => lex_lt(a, sk),
        ConditionModel::Le(a) => lex_le(sk, a),
        ConditionModel::Lt(a) => lex_lt(sk, a),
    }
}

/// Whether a sort key satisfies an optional predicate; with no
/// predicate every sort key passes.
pub open spec fn opt_cond_matches(c: Option<ConditionModel>, sk: Seq<char>) -> bool {
    match c {
        Some(cm) => cond_matches(cm, sk),
        None => true,
    }
}

impl Condition {
    /// Decides whether a sort key satisfies this predicate.
    pub fn matches(&self, sk: &str) -> (r: bool)
        ensures
            r == cond_matches(self@, sk@),
    {
        match self {
            Condition::BeginsWith(a) => str_starts_with(sk, a.as_str()),
            Condition::Between(a, b) => str_le(a.as_str(), sk) && str_le(sk, b.as_str()),
            Condition::Eq(a) => crate::keys::str_eq(sk, a.as_str()),
            Condition::Ge(a) => str_le(a.as_str(), sk),
            Condition::Gt(a) => str_lt(a.as_str(), sk),
            Condition::Le(a) => str_le(sk, a.as_str()),
            Condition::Lt(a) => str_lt(sk, a.as_str()),
        }
    }

    /// A copy of this predicate with the same value.
    pub fn duplicate(&self) -> (r: Condition)
        ensures
            r@ == self@,
    {
        match self {
            Condition::BeginsWith(a) => Condition::BeginsWith(a.clone()),
            Condition::Between(a, b) => Condition::Between(a.clone(), b.clone()),
            Condition::Eq(a) => Condition::Eq(a.clone()),
            Condition::Ge(a) => Condition::Ge(a.clone()),
            Condition::Gt(a) => Condition::Gt(a.clone()),
            Condition::Le(a) => Condition::Le(a.clone()),
            Condition::Lt(a) => Condition::Lt(a.clone()),
        }
    }
}

/// The native condition expression for a query's key predicates, together
/// with its parameter bindings.
#[derive(Debug)]
pub struct KeyConditionExpr {
    /// The expression text the backend receives.
    pub expression: String,
    /// Parameter name/value bindings referenced by the expression.
    pub bindings: Vec<(String, String)>,
}

/// The expression text produced for an optional sort-key predicate.
pub open spec fn spec_expression(c: Option<ConditionModel>) -> Seq<char> {
    match c {
        None => "pk = :pk"@,
        Some(ConditionModel::BeginsWith(_)) => "pk = :pk AND BEGINS_WITH(sk, :a)"@,
        Some(ConditionModel::Between(_, _)) => "pk = :pk AND sk BETWEEN :a AND :b"@,
        Some(ConditionModel::Eq(_)) => "pk = :pk AND sk = :a"@,
        Some(ConditionModel::Ge(_)) => "pk = :pk AND sk >= :a"@,
        Some(ConditionModel::Gt(_)) => "pk = :pk AND sk > :a"@,
        Some(ConditionModel::Le(_)) => "pk = :pk AND sk <= :a"@,
        Some(ConditionModel::Lt(_)) => "pk = :pk AND sk < :a"@,
    }
}

/// The parameter bindings produced for a partition key and an optional
/// sort-key predicate.
pub open spec fn spec_bindings(pk: Seq<char>, c: Option<ConditionModel>) -> Seq<
    (Seq<char>, Seq<char>),
> {
    match c {
        None => seq![(":pk"@, pk)],
        Some(ConditionModel::Between(a, b)) => seq![(":pk"@, pk), (":a"@, a), (":b"@, b)],
        Some(ConditionModel::BeginsWith(a)) => seq![(":pk"@, pk), (":a"@, a)],
        Some(ConditionModel::Eq(a)) => seq![(":pk"@, pk), (":a"@, a)],
        Some(ConditionModel::Ge(a)) => seq![(":pk"@, pk), (":a"@, a)],
        Some(ConditionModel::Gt(a)) => seq![(":pk"@, pk), (":a"@, a)],
        Some(ConditionModel::Le(a)) => seq![(":pk"@, pk), (":a"@, a)],
        Some(ConditionModel::Lt(a)) => seq![(":pk"@, pk), (":a"@, a)],
    }
}

/// The mathematical value of a binding list.
pub open spec fn bindings_model(b: Seq<(String, String)>) -> Seq<(Seq<char>, Seq<char>)> {
    b.map_values(|p: (String, String)| (p.0@, p.1@))
}

/// Builds the native key condition expression and its bindings for a
/// partition key and an optional sort-key predicate.
pub fn build_key_condition(pk: &str, cond: Option<&Condition>) -> (r: KeyConditionExpr)
    ensures
        r.expression@ == spec_expression(match cond {
            Some(c) => Some(c@),
            None => None,
        }),
        bindings_model(r.bindings@) =~= spec_bindings(pk@, match cond {
            Some(c) => Some(c@),
            None => None,
        }),
{
    let mut bindings: Vec<(String, String)> = Vec::new();
    bindings.push((String::from_str(":pk"), pk.to_owned()));
    let expression: String = match cond {
        None => String::from_str("pk = :pk"),
        Some(Condition::BeginsWith(a)) => {
            bindings.push((String::from_str(":a"), a.clone()));
            String::from_str("pk = :pk AND BEGINS_WITH(sk, :a)")
        },
        Some(Condition::Between(a, b)) => {
            bindings.push((String::from_str(":a"), a.clone()));
            bindings.push((String::from_str(":b"), b.clone()));
            String::from_str("pk = :pk AND sk BETWEEN :a AND :b")
        },
        Some(Condition::Eq(a)) => {
            bindings.push((String::from_str(":a"), a.clone()));
            String::from_str("pk = :pk AND sk = :a")
        },
        Some(Condition::Ge(a)) => {
            bindings.push((String::from_str(":a"), a.clone()));
            String::from_str("pk = :pk AND sk >= :a")
        },
        Some(Condition::Gt(a)) => {
            bindings.push((String::from_str(":a"), a.clone()));
            String::from_str("pk = :pk AND sk > :a")
        },
        Some(Condition::Le(a)) => {
            bindings.push((String::from_str(":a"), a.clone()));
            String::from_str("pk = :pk AND sk <= :a")
        },
        Some(Condition::Lt(a)) => {
            bindings.push((String::from_str(":a"), a.clone()));
            String::from_str("pk = :pk AND sk < :a")
        },
    };
    KeyConditionExpr { expression, bindings }
}

} // verus!
