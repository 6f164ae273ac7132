//! Raw `Socket` methods. Both follow one skeleton: call the runtime
//! helper, branch on its null sentinel, and build `Err` from the last
//! error or `Ok` from the helper's buffer.

use vstd::prelude::*;
use crate::ctx::EmitContext;
use crate::error::{says, LlvmError};
use crate::intrinsics::list::{build_list_struct, list_struct_code};
use crate::intrinsics::params::{missing, nth_param};
use crate::intrinsics::result::{
    result_fault, ret_err, ret_err_code, ret_ok, ret_ok_code, return_symbol, returns_result,
    single_payload, single_payload_type, ERR_TAG, OK_TAG,
};
use crate::ir::{IRFunction, IRSymbol, IRType, SocketMethod};
use crate::llvm::{
    a0, a1, a2, a3, call, gep, imul, itest, num, Body, CastOp, Code, Inst, LType, Pred, Val,
};
use crate::runtime::Rt;
use crate::text::concat3;

verus! {

/// Size of the count that precedes the addresses of a resolve buffer.
pub const RESOLVE_HEADER_BYTES: u64 = 8;

/// Offset of the address in a receive buffer.
pub const RECV_FROM_IP_OFFSET: u64 = 8;

/// Offset of the port in a receive buffer.
pub const RECV_FROM_PORT_OFFSET: u64 = 16;

/// A branch on the null sentinel and the error path. The blocks are ok
/// and err; it goes on in ok.
pub open spec fn null_branch_code(c: &EmitContext, s: Code, ptr: Val, result: IRSymbol) -> Code {
    let e = s.i(Inst::Cast(CastOp::PtrToInt, LType::Ptr, ptr, LType::I64))
        .i(Inst::Cast(CastOp::PtrToInt, LType::Ptr, Val::Null, LType::I64))
        .i(itest(Pred::Eq, s.v(0), s.v(1)))
        .word("ok"@).word("err"@)
        .i(Inst::CondBr(s.v(2), s.b(1), s.b(0)))
        .at(s.b(1))
        .i(call(Rt::LastError, a0()));
    ret_err_code(c, e, result, s.v(4)).at(s.b(0))
}

/// Emits the null branch and the error path, and goes on in ok.
pub fn branch_on_null(c: &EmitContext, f: &mut Body, ptr: Val, result: IRSymbol)
    requires
        c.payload(result, ERR_TAG).len() == 1,
    ensures
        final(f)@ == null_branch_code(c, old(f)@, ptr, result),
{
    let ptr_int = f.ins(Inst::Cast(CastOp::PtrToInt, LType::Ptr, ptr, LType::I64));
    let null_int = f.ins(Inst::Cast(CastOp::PtrToInt, LType::Ptr, Val::Null, LType::I64));
    let null = f.ins(itest(Pred::Eq, ptr_int, null_int));
    let ok_bb = f.block("ok");
    let err_bb = f.block("err");
    f.ins(Inst::CondBr(null, err_bb, ok_bb));
    f.at(err_bb);
    let message = f.ins(call(Rt::LastError, a0()));
    ret_err(c, f, result, message);
    f.at(ok_bb);
}

/// `Socket.resolve_raw`: the helper's addresses as a list of binaries.
pub open spec fn resolve_code(c: &EmitContext, s: Code, result: IRSymbol) -> Code {
    let o = null_branch_code(
        c,
        s.i(call(Rt::SocketResolve, a1(Val::Param(0)))),
        s.v(0),
        result,
    );
    let l = o.i(Inst::Load(LType::I64, s.v(0)))
        .i(imul(o.v(0), num(c.abi(LType::Ptr))))
        .i(call(Rt::Malloc, a1(o.v(1))))
        .i(gep(s.v(0), num(RESOLVE_HEADER_BYTES)))
        .i(call(Rt::Memcpy, a3(o.v(2), o.v(3), o.v(1))))
        .i(call(Rt::Free, a1(s.v(0))));
    ret_ok_code(c, list_struct_code(l, o.v(2), o.v(0), o.v(0)), result, l.v(2))
}

/// Emits `Socket.resolve_raw`.
pub fn emit_resolve(c: &EmitContext, f: &mut Body, result: IRSymbol)
    requires
        c.payload(result, OK_TAG).len() == 1,
        c.payload(result, ERR_TAG).len() == 1,
    ensures
        final(f)@ == resolve_code(c, old(f)@, result),
{
    let buf = f.ins(call(Rt::SocketResolve, a1(Val::Param(0))));
    branch_on_null(c, f, buf, result);
    let count = f.ins(Inst::Load(LType::I64, buf));
    let bytes = f.ins(imul(count, num(c.abi_size(LType::Ptr))));
    let list_buf = f.ins(call(Rt::Malloc, a1(bytes)));
    let start = f.ins(gep(buf, num(RESOLVE_HEADER_BYTES)));
    f.ins(call(Rt::Memcpy, a3(list_buf, start, bytes)));
    f.ins(call(Rt::Free, a1(buf)));
    let list = build_list_struct(f, list_buf, count, count);
    ret_ok(c, f, result, list);
}

/// `Socket.recv_from_raw`: the helper's data, address and port as a
/// tuple.
pub open spec fn recv_from_code(
    c: &EmitContext,
    s: Code,
    socket: IRSymbol,
    descriptor: IRSymbol,
    tuple: usize,
    result: IRSymbol,
) -> Code {
    let o = null_branch_code(
        c,
        s.i(Inst::Extract(LType::Struct(socket), Val::Param(0), 0))
            .i(Inst::Extract(LType::Struct(descriptor), s.v(0), 0))
            .i(call(Rt::SocketRecvFrom, a2(s.v(1), Val::Param(1)))),
        s.v(2),
        result,
    );
    ret_ok_code(
        c,
        o.i(Inst::Load(LType::Ptr, s.v(2)))
            .i(gep(s.v(2), num(RECV_FROM_IP_OFFSET)))
            .i(Inst::Load(LType::Ptr, o.v(1)))
            .i(gep(s.v(2), num(RECV_FROM_PORT_OFFSET)))
            .i(Inst::Load(LType::I64, o.v(3)))
            .i(call(Rt::Free, a1(s.v(2))))
            .i(Inst::Insert(LType::Tuple(tuple), Val::Undef, LType::Ptr, o.v(0), 0))
            .i(Inst::Insert(LType::Tuple(tuple), o.v(6), LType::Ptr, o.v(2), 1))
            .i(Inst::Insert(LType::Tuple(tuple), o.v(7), LType::I64, o.v(4), 2)),
        result,
        o.v(8),
    )
}

/// Emits `Socket.recv_from_raw`.
pub fn emit_recv_from(
    c: &EmitContext,
    f: &mut Body,
    socket: IRSymbol,
    descriptor: IRSymbol,
    tuple: usize,
    result: IRSymbol,
)
    requires
        c.payload(result, OK_TAG).len() == 1,
        c.payload(result, ERR_TAG).len() == 1,
    ensures
        final(f)@ == recv_from_code(c, old(f)@, socket, descriptor, tuple, result),
{
    let fd_struct = f.ins(Inst::Extract(LType::Struct(socket), Val::Param(0), 0));
    let fd = f.ins(Inst::Extract(LType::Struct(descriptor), fd_struct, 0));
    let buf = f.ins(call(Rt::SocketRecvFrom, a2(fd, Val::Param(1))));
    branch_on_null(c, f, buf, result);
    let data = f.ins(Inst::Load(LType::Ptr, buf));
    let ip_field = f.ins(gep(buf, num(RECV_FROM_IP_OFFSET)));
    let ip = f.ins(Inst::Load(LType::Ptr, ip_field));
    let port_field = f.ins(gep(buf, num(RECV_FROM_PORT_OFFSET)));
    let port = f.ins(Inst::Load(LType::I64, port_field));
    f.ins(call(Rt::Free, a1(buf)));
    let ty = LType::Tuple(tuple);
    let with_data = f.ins(Inst::Insert(ty, Val::Undef, LType::Ptr, data, 0));
    let with_ip = f.ins(Inst::Insert(ty, with_data, LType::Ptr, ip, 1));
    let received = f.ins(Inst::Insert(ty, with_ip, LType::I64, port, 2));
    ret_ok(c, f, result, received);
}

/// The struct types of a socket and of the descriptor in it.
pub open spec fn socket_shape(c: &EmitContext, ty: IRType) -> Option<(IRSymbol, IRSymbol)> {
    match ty {
        IRType::Struct(socket) => if c.fields(socket).len() > 0 {
            match c.fields(socket)[0] {
                IRType::Struct(descriptor) => Some((socket, descriptor)),
                _ => None,
            }
        } else {
            None
        },
        _ => None,
    }
}

/// Resolves the struct types of a socket.
pub fn resolve_socket(c: &EmitContext, ty: IRType) -> (r: Option<(IRSymbol, IRSymbol)>)
    ensures
        r == socket_shape(c, ty),
{
    match ty {
        IRType::Struct(socket) => match c.first_field(socket) {
            Some(IRType::Struct(descriptor)) => Some((socket, descriptor)),
            _ => None,
        },
        _ => None,
    }
}

/// The tuple that a received datagram comes in.
pub open spec fn datagram_tuple(c: &EmitContext, ty: IRType) -> Option<usize> {
    match ty {
        IRType::Tuple(t) => if c.elements(t) == seq![IRType::Binary, IRType::Binary, IRType::Int64] {
            Some(t)
        } else {
            None
        },
        _ => None,
    }
}

/// Resolves the tuple that a received datagram comes in.
pub fn resolve_datagram(c: &EmitContext, ty: IRType) -> (r: Option<usize>)
    ensures
        r == datagram_tuple(c, ty),
{
    match ty {
        IRType::Tuple(t) => {
            let ghost want = seq![IRType::Binary, IRType::Binary, IRType::Int64];
            if c.tuple_len(t) == 3 && c.tuple_element(t, 0) == Some(IRType::Binary)
                && c.tuple_element(t, 1) == Some(IRType::Binary) && c.tuple_element(t, 2) == Some(
                IRType::Int64,
            ) {
                assert(c.elements(t) =~= want);
                Some(t)
            } else {
                assert(c.elements(t) != want);
                None
            }
        },
        _ => None,
    }
}

/// The function can be the method.
#[verifier::opaque]
pub open spec fn socket_ok(c: &EmitContext, function: &IRFunction, method: SocketMethod) -> bool {
    match method {
        SocketMethod::LastError => true,
        SocketMethod::ResolveRaw => {
            &&& function.params@.len() > 0
            &&& returns_result(c, function)
            &&& function.return_type matches IRType::Enum(r) && c.payload(r, ERR_TAG).len() == 1
                && (single_payload(c, r, OK_TAG)->0 matches IRType::List(t) && c.node(t)
                == IRType::Binary)
        },
        SocketMethod::RecvFromRaw => {
            &&& function.params@.len() > 1
            &&& socket_shape(c, function.params@[0].ty) is Some
            &&& returns_result(c, function)
            &&& function.return_type matches IRType::Enum(r) && c.payload(r, ERR_TAG).len() == 1
                && datagram_tuple(c, single_payload(c, r, OK_TAG)->0) is Some
        },
    }
}

/// The body of a `Socket` method.
#[verifier::opaque]
pub open spec fn socket_code(
    c: &EmitContext,
    s: Code,
    function: &IRFunction,
    method: SocketMethod,
) -> Code {
    let result = function.return_type->Enum_0;
    match method {
        SocketMethod::LastError => s.i(call(Rt::LastError, a0())).i(Inst::Ret(LType::Ptr, s.v(0))),
        SocketMethod::ResolveRaw => resolve_code(c, s, result),
        SocketMethod::RecvFromRaw => {
            let (socket, descriptor) = socket_shape(c, function.params@[0].ty)->0;
            recv_from_code(
                c,
                s,
                socket,
                descriptor,
                datagram_tuple(c, single_payload(c, result, OK_TAG)->0)->0,
                result,
            )
        },
    }
}

/// What is said of an ill-shaped function.
pub open spec fn shape_fault(c: &EmitContext, function: &IRFunction, what: Seq<char>) -> Seq<char> {
    what + " on "@ + c.mangled(function.symbol)
}

fn ill_shaped(c: &EmitContext, function: &IRFunction, what: &str) -> (r: LlvmError)
    ensures
        says(r, shape_fault(c, function, what@)),
{
    LlvmError::Codegen(concat3(what, " on ", c.name_of(function.symbol)))
}

/// What is said of a function that cannot be the `Socket` method.
pub open spec fn socket_fault(c: &EmitContext, function: &IRFunction, method: SocketMethod) -> Seq<char> {
    match method {
        SocketMethod::LastError => ""@,
        SocketMethod::ResolveRaw => if !returns_result(c, function) {
            result_fault(c, function, "Socket.resolve_raw"@)
        } else if function.params@.len() == 0 {
            missing(c, function, 0, "hostname"@)
        } else if c.payload(function.return_type->Enum_0, ERR_TAG).len() != 1 {
            shape_fault(c, function, "Socket.resolve_raw has an ill-shaped Err"@)
        } else {
            shape_fault(c, function, "Socket.resolve_raw Ok payload expected to be List<Binary>"@)
        },
        SocketMethod::RecvFromRaw => if !returns_result(c, function) {
            result_fault(c, function, "Socket.recv_from_raw"@)
        } else if function.params@.len() <= 1 {
            missing(c, function, 1, "count"@)
        } else if c.payload(function.return_type->Enum_0, ERR_TAG).len() != 1 {
            shape_fault(c, function, "Socket.recv_from_raw has an ill-shaped Err"@)
        } else if socket_shape(c, function.params@[0].ty) is None {
            shape_fault(c, function, "Socket.recv_from_raw receiver is no socket"@)
        } else if single_payload(c, function.return_type->Enum_0, OK_TAG) is None {
            shape_fault(c, function, "Socket.recv_from_raw has no Ok payload"@)
        } else {
            shape_fault(
                c,
                function,
                "Socket.recv_from_raw Ok payload expected `(Binary, Binary, Int)`"@,
            )
        },
    }
}

/// Emits a `Socket` method.
pub fn emit_socket(c: &EmitContext, function: &IRFunction, f: &mut Body, method: SocketMethod) -> (r: Result<
    (),
    LlvmError,
>)
    ensures
        match r {
            Ok(()) => socket_ok(c, function, method) && final(f)@ == socket_code(
                c,
                old(f)@,
                function,
                method,
            ),
            Err(e) => !socket_ok(c, function, method) && says(e, socket_fault(c, function, method))
                && final(f)@ == old(f)@,
        },
{
    proof {
        reveal(socket_ok);
        reveal(socket_code);
    }
    match method {
        SocketMethod::LastError => {
            let message = f.ins(call(Rt::LastError, a0()));
            f.ins(Inst::Ret(LType::Ptr, message));
            Ok(())
        },
        SocketMethod::ResolveRaw => {
            let result = return_symbol(c, function, "Socket.resolve_raw")?;
            let _hostname = nth_param(c, function, 0, "hostname")?;
            if c.enum_variant_payload(result, ERR_TAG).len() != 1 {
                return Err(ill_shaped(c, function, "Socket.resolve_raw has an ill-shaped Err"));
            }
            match single_payload_type(c, result, OK_TAG) {
                Some(IRType::List(t)) => if c.component(t) == IRType::Binary {
                    emit_resolve(c, f, result);
                    return Ok(());
                },
                _ => {},
            }
            Err(
                ill_shaped(
                    c,
                    function,
                    "Socket.resolve_raw Ok payload expected to be List<Binary>",
                ),
            )
        },
        SocketMethod::RecvFromRaw => {
            let result = return_symbol(c, function, "Socket.recv_from_raw")?;
            let _count = nth_param(c, function, 1, "count")?;
            if c.enum_variant_payload(result, ERR_TAG).len() != 1 {
                return Err(ill_shaped(c, function, "Socket.recv_from_raw has an ill-shaped Err"));
            }
            match resolve_socket(c, function.params[0].ty) {
                Some((socket, descriptor)) => match single_payload_type(c, result, OK_TAG) {
                    Some(ty) => match resolve_datagram(c, ty) {
                        Some(tuple) => {
                            emit_recv_from(c, f, socket, descriptor, tuple, result);
                            Ok(())
                        },
                        None => Err(
                            ill_shaped(
                                c,
                                function,
                                "Socket.recv_from_raw Ok payload expected `(Binary, Binary, Int)`",
                            ),
                        ),
                    },
                    None => Err(ill_shaped(c, function, "Socket.recv_from_raw has no Ok payload")),
                },
                None => Err(ill_shaped(c, function, "Socket.recv_from_raw receiver is no socket")),
            }
        },
    }
}

} // verus!
