//! The ExecuteSQL convention that `execute` and `query` use: the statement,
//! a declaration of the parameters, then the parameters `@P1`, `@P2`, ...
use crate::column_data::{declared_type_spec, ColumnData};
use crate::rpc_request::{RpcParam, RpcProcId, RpcProcIdValue, TokenRpcRequest};
use crate::text::{push_char, utf16_of, utf16_units};
use vstd::prelude::*;

verus! {

pub open spec fn digit_char(d: nat) -> char {
    if d == 0 { '0' }
    else if d == 1 { '1' }
    else if d == 2 { '2' }
    else if d == 3 { '3' }
    else if d == 4 { '4' }
    else if d == 5 { '5' }
    else if d == 6 { '6' }
    else if d == 7 { '7' }
    else if d == 8 { '8' }
    else { '9' }
}

/// The decimal digits of `n`, most significant first.
pub open spec fn decimal(n: nat) -> Seq<char>
    decreases n,
{
    if n < 10 {
        seq![digit_char(n)]
    } else {
        decimal(n / 10).push(digit_char(n % 10))
    }
}

/// The name of the `i`-th user parameter (counted from 0): `@P<i + 1>`.
pub open spec fn param_name(i: nat) -> Seq<char> {
    "@P"@ + decimal(i + 1)
}

/// One declaration of the meta-string: `@P<i + 1> <type>`.
pub open spec fn param_decl(i: nat, v: ColumnData) -> Seq<char> {
    param_name(i) + " "@ + declared_type_spec(v@)
}

/// The declarations of all parameters, joined with `,`.
pub open spec fn meta_string(ps: Seq<ColumnData>) -> Seq<char>
    decreases ps.len(),
{
    if ps.len() == 0 {
        Seq::empty()
    } else if ps.len() == 1 {
        param_decl(0, ps[0])
    } else {
        meta_string(ps.drop_last()) + ","@ + param_decl((ps.len() - 1) as nat, ps.last())
    }
}

fn digit(d: usize) -> (r: char)
    requires
        d < 10,
    ensures
        r == digit_char(d as nat),
{
    if d == 0 { '0' }
    else if d == 1 { '1' }
    else if d == 2 { '2' }
    else if d == 3 { '3' }
    else if d == 4 { '4' }
    else if d == 5 { '5' }
    else if d == 6 { '6' }
    else if d == 7 { '7' }
    else if d == 8 { '8' }
    else { '9' }
}

/// Appends the decimal digits of `n`.
pub fn push_decimal(s: &mut String, n: usize)
    ensures
        final(s)@ == old(s)@ + decimal(n as nat),
    decreases n,
{
    if n >= 10 {
        push_decimal(s, n / 10);
    }
    push_char(s, digit(n % 10));
    assert(final(s)@ =~= old(s)@ + decimal(n as nat));
}

/// Appends `@P<i + 1>`.
fn push_param_name(s: &mut String, i: usize)
    requires
        i < usize::MAX,
    ensures
        final(s)@ == old(s)@ + param_name(i as nat),
{
    s.append("@P");
    push_decimal(s, i + 1);
    proof {
        reveal_strlit("@P");
    }
    assert(final(s)@ =~= old(s)@ + param_name(i as nat));
}

/// The parameter declarations `@P1 <type>,@P2 <type>,...` sent as `@params`.
pub fn param_meta_string(params: &Vec<ColumnData>) -> (r: String)
    ensures
        r@ == meta_string(params@),
{
    let mut s = String::new();
    let mut i: usize = 0;
    while i < params.len()
        invariant
            i <= params@.len(),
            s@ == meta_string(params@.subrange(0, i as int)),
        decreases params@.len() - i,
    {
        if i > 0 {
            push_char(&mut s, ',');
        }
        push_param_name(&mut s, i);
        s.append(" ");
        let ty = params[i].declared_type();
        s.append(ty.as_str());
        proof {
            reveal_strlit(",");
            reveal_strlit(" ");
            let sub = params@.subrange(0, i + 1);
            assert(sub.drop_last() =~= params@.subrange(0, i as int));
            assert(sub.last() == params@[i as int]);
        }
        assert(s@ =~= meta_string(params@.subrange(0, i + 1)));
        i += 1;
    }
    assert(params@.subrange(0, i as int) =~= params@);
    s
}

/// The two leading parameters of an ExecuteSQL call: `@stmt` holding the
/// statement, and `@params`, which is later set to the declarations.
pub fn rpc_params(query: &str) -> (r: Vec<RpcParam>)
    ensures
        r@.len() == 2,
        r@[0].name@ == "@stmt"@,
        r@[0].flags == 0,
        r@[0].value@ == crate::column_data::ColumnValue::String(Some(utf16_of(query@))),
        r@[1].name@ == "@params"@,
        r@[1].flags == 0,
        r@[1].value == ColumnData::I32(Some(0)),
{
    let stmt = RpcParam {
        name: String::from_str("@stmt"),
        flags: 0,
        value: ColumnData::String(Some(utf16_units(query))),
    };
    let decl = RpcParam {
        name: String::from_str("@params"),
        flags: 0,
        value: ColumnData::I32(Some(0)),
    };
    proof {
        reveal_strlit("@stmt");
        reveal_strlit("@params");
    }
    vec![stmt, decl]
}

/// What an ExecuteSQL request for `query` with `params` holds.
pub open spec fn is_execute_sql(
    r: TokenRpcRequest,
    query: Seq<char>,
    params: Seq<ColumnData>,
    tx: Seq<u8>,
) -> bool {
    &&& r.proc_id == RpcProcIdValue::Id(RpcProcId::ExecuteSQL)
    &&& r.flags == 0
    &&& r.transaction_desc@ == tx
    &&& r.params@.len() == params.len() + 2
    &&& r.params@[0].name@ == "@stmt"@
    &&& r.params@[0].flags == 0
    &&& r.params@[0].value@ == crate::column_data::ColumnValue::String(Some(utf16_of(query)))
    &&& r.params@[1].name@ == "@params"@
    &&& r.params@[1].flags == 0
    &&& r.params@[1].value@ == crate::column_data::ColumnValue::String(
        Some(utf16_of(meta_string(params))),
    )
    &&& forall|i: int|
        0 <= i < params.len() ==> {
            &&& (#[trigger] r.params@[i + 2]).name@ == param_name(i as nat)
            &&& r.params@[i + 2].flags == 0
            &&& r.params@[i + 2].value == params[i]
        }
}

/// Builds the ExecuteSQL call for `query` with positional values `params`,
/// bound to the transaction `transaction_desc`.
pub fn execute_sql_request(query: &str, params: Vec<ColumnData>, transaction_desc: [u8; 8]) -> (r:
    TokenRpcRequest)
    ensures
        is_execute_sql(r, query@, params@, transaction_desc@),
{
    let meta = param_meta_string(&params);
    let mut rpc = rpc_params(query);
    rpc.set(
        1,
        RpcParam {
            name: rpc[1].name.clone(),
            flags: 0,
            value: ColumnData::String(Some(utf16_units(meta.as_str()))),
        },
    );
    let n = params.len();
    let ghost orig = params@;
    let mut rest = params;
    let mut i: usize = 0;
    while rest.len() > 0
        invariant
            rest@ == orig.subrange(i as int, orig.len() as int),
            i <= orig.len(),
            orig.len() == n,
            rpc@.len() == i + 2,
            rpc@[0].name@ == "@stmt"@,
            rpc@[0].flags == 0,
            rpc@[0].value@ == crate::column_data::ColumnValue::String(Some(utf16_of(query@))),
            rpc@[1].name@ == "@params"@,
            rpc@[1].flags == 0,
            rpc@[1].value@ == crate::column_data::ColumnValue::String(
                Some(utf16_of(meta_string(orig))),
            ),
            forall|j: int|
                0 <= j < i ==> {
                    &&& (#[trigger] rpc@[j + 2]).name@ == param_name(j as nat)
                    &&& rpc@[j + 2].flags == 0
                    &&& rpc@[j + 2].value == orig[j]
                },
        decreases rest@.len(),
    {
        let value = rest.remove(0);
        let mut name = String::new();
        push_param_name(&mut name, i);
        rpc.push(RpcParam { name, flags: 0, value });
        proof {
            assert(rest@ =~= orig.subrange(i + 1, orig.len() as int));
        }
        i += 1;
    }
    TokenRpcRequest::new(RpcProcIdValue::Id(RpcProcId::ExecuteSQL), rpc, transaction_desc)
}

} // verus!
