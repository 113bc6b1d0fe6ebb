//! Compilation of a conjunction of tag conditions into one parameterised query.
use vstd::prelude::*;
use vstd::string::*;
use crate::condition::{Condition, Op};

verus! {

/// A value bound to a `?` placeholder of a compiled query.
#[derive(Clone, Debug)]
pub enum SqlParam {
    Text(String),
    Integer(u8),
}

/// A query text with its parameters, in placeholder order.
pub struct QueryPlan {
    pub sql: String,
    pub params: Vec<SqlParam>,
}

pub open spec fn digit_chars() -> Seq<char> {
    seq!['0', '1', '2', '3', '4', '5', '6', '7', '8', '9']
}

/// The decimal text of `n`.
pub open spec fn dec(n: nat) -> Seq<char>
    decreases n,
{
    if n < 10 {
        seq![digit_chars()[n as int]]
    } else {
        dec(n / 10) + seq![digit_chars()[(n % 10) as int]]
    }
}

/// The join pair of the `i`-th condition: its own aliases `st<i>` and `t<i>`.
pub open spec fn join_text(i: nat) -> Seq<char> {
    " JOIN song_tags st"@ + dec(i) + " ON s.id = st"@ + dec(i) + ".song_id JOIN tags t"@ + dec(i)
        + " ON st"@ + dec(i) + ".tag_id = t"@ + dec(i) + ".id"@
}

/// The test of the `i`-th condition: two placeholders, for the tag name and the value.
pub open spec fn clause_text(i: nat, op: Op) -> Seq<char> {
    "(t"@ + dec(i) + ".name = ? AND st"@ + dec(i) + ".value "@ + op.symbol() + " ?)"@
}

pub open spec fn joins_text(ops: Seq<Op>, k: nat) -> Seq<char>
    decreases k,
{
    if k == 0 {
        Seq::empty()
    } else {
        joins_text(ops, (k - 1) as nat) + join_text((k - 1) as nat)
    }
}

/// The tests of the first `k` conditions, joined by ` AND `.
pub open spec fn clauses_text(ops: Seq<Op>, k: nat) -> Seq<char>
    decreases k,
{
    if k == 0 {
        Seq::empty()
    } else if k == 1 {
        clause_text(0, ops[0])
    } else {
        clauses_text(ops, (k - 1) as nat) + " AND "@ + clause_text((k - 1) as nat, ops[k - 1])
    }
}

/// The query for the conditions whose operators are `ops`.
pub open spec fn query_text(ops: Seq<Op>) -> Seq<char> {
    "SELECT DISTINCT s.id, s.path FROM songs s"@ + joins_text(ops, ops.len()) + " WHERE "@
        + clauses_text(ops, ops.len()) + " ORDER BY s.path"@
}

pub open spec fn ops_of(cs: Seq<Condition>) -> Seq<Op> {
    cs.map_values(|c: Condition| c.op)
}

/// Whether `ps` binds, for each condition in turn, its tag name and then its value.
pub open spec fn params_match(ps: Seq<SqlParam>, cs: Seq<Condition>) -> bool {
    &&& ps.len() == 2 * cs.len()
    &&& forall|i: int|
        0 <= i < cs.len() ==> match #[trigger] ps[2 * i] {
            SqlParam::Text(t) => t@ == cs[i].tag_name@,
            _ => false,
        }
    &&& forall|i: int| 0 <= i < cs.len() ==> #[trigger] ps[2 * i + 1] == SqlParam::Integer(cs[i].value)
}

fn digit_str(d: usize) -> (r: &'static str)
    requires
        d < 10,
    ensures
        r@ == seq![digit_chars()[d as int]],
{
    match d {
        0 => {
            proof { reveal_strlit("0"); }
            "0"
        },
        1 => {
            proof { reveal_strlit("1"); }
            "1"
        },
        2 => {
            proof { reveal_strlit("2"); }
            "2"
        },
        3 => {
            proof { reveal_strlit("3"); }
            "3"
        },
        4 => {
            proof { reveal_strlit("4"); }
            "4"
        },
        5 => {
            proof { reveal_strlit("5"); }
            "5"
        },
        6 => {
            proof { reveal_strlit("6"); }
            "6"
        },
        7 => {
            proof { reveal_strlit("7"); }
            "7"
        },
        8 => {
            proof { reveal_strlit("8"); }
            "8"
        },
        _ => {
            proof { reveal_strlit("9"); }
            "9"
        },
    }
}

/// The decimal text of `n`.
pub fn decimal(n: usize) -> (r: String)
    ensures
        r@ == dec(n as nat),
    decreases n,
{
    if n < 10 {
        String::from_str(digit_str(n))
    } else {
        let mut s = decimal(n / 10);
        s.append(digit_str(n % 10));
        s
    }
}

fn join_for(i: usize) -> (r: String)
    ensures
        r@ == join_text(i as nat),
{
    let d = decimal(i);
    let mut s = String::from_str(" JOIN song_tags st");
    s.append(d.as_str());
    s.append(" ON s.id = st");
    s.append(d.as_str());
    s.append(".song_id JOIN tags t");
    s.append(d.as_str());
    s.append(" ON st");
    s.append(d.as_str());
    s.append(".tag_id = t");
    s.append(d.as_str());
    s.append(".id");
    s
}

fn clause_for(i: usize, op: Op) -> (r: String)
    ensures
        r@ == clause_text(i as nat, op),
{
    let d = decimal(i);
    let mut s = String::from_str("(t");
    s.append(d.as_str());
    s.append(".name = ? AND st");
    s.append(d.as_str());
    s.append(".value ");
    s.append(op.as_str());
    s.append(" ?)");
    s
}

/// Compile a conjunction of conditions into one query: each condition gets its
/// own join pair, every tag name and value is a bound parameter, and only the
/// operator's text stands in the query. No conditions give no query.
pub fn compile_query(conditions: &Vec<Condition>) -> (r: Option<QueryPlan>)
    ensures
        conditions@.len() == 0 <==> r is None,
        r matches Some(plan) ==> plan.sql@ == query_text(ops_of(conditions@)) && params_match(
            plan.params@,
            conditions@,
        ),
{
    let n = conditions.len();
    if n == 0 {
        return None;
    }
    let ghost ops = ops_of(conditions@);
    let mut joins = String::new();
    let mut clauses = String::new();
    let mut params: Vec<SqlParam> = Vec::new();
    let mut i: usize = 0;
    while i < n
        invariant
            n == conditions@.len(),
            ops == ops_of(conditions@),
            i <= n,
            joins@ == joins_text(ops, i as nat),
            clauses@ == clauses_text(ops, i as nat),
            params_match(params@, conditions@.subrange(0, i as int)),
        decreases n - i,
    {
        let c = &conditions[i];
        joins.append(join_for(i).as_str());
        if i > 0 {
            clauses.append(" AND ");
        }
        clauses.append(clause_for(i, c.op).as_str());
        let ghost before = params@;
        params.push(SqlParam::Text(c.tag_name.clone()));
        params.push(SqlParam::Integer(c.value));
        proof {
            let cs = conditions@.subrange(0, i + 1);
            assert forall|j: int| 0 <= j < cs.len() implies match #[trigger] params@[2 * j] {
                SqlParam::Text(t) => t@ == cs[j].tag_name@,
                _ => false,
            } by {
                if j < i {
                    assert(params@[2 * j] == before[2 * j]);
                    assert(cs[j] == conditions@.subrange(0, i as int)[j]);
                }
            }
            assert forall|j: int| 0 <= j < cs.len() implies #[trigger] params@[2 * j + 1]
                == SqlParam::Integer(cs[j].value) by {
                if j < i {
                    assert(params@[2 * j + 1] == before[2 * j + 1]);
                    assert(cs[j] == conditions@.subrange(0, i as int)[j]);
                }
            }
        }
        i = i + 1;
    }
    assert(conditions@.subrange(0, n as int) =~= conditions@);
    let mut sql = String::from_str("SELECT DISTINCT s.id, s.path FROM songs s");
    sql.append(joins.as_str());
    sql.append(" WHERE ");
    sql.append(clauses.as_str());
    sql.append(" ORDER BY s.path");
    Some(QueryPlan { sql, params })
}

} // verus!
