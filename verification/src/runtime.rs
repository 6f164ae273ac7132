//! The functions of the runtime and of libc that emitted code calls.

use vstd::prelude::*;
use crate::llvm::LType;

verus! {

/// An outside function known by name.
#[derive(Clone, Copy, Debug, PartialEq, Eq, Structural)]
pub enum Rt {
    Malloc,
    Free,
    Memcpy,
    Memset,
    MemCompare,
    RcInc,
    RcDec,
    ClosureRcDec,
    ClosureDeepCopy,
    HeapDeepCopy,
    Panic,
    ConcatBits,
    StringEq,
    StringLength,
    StringGet,
    StringSlice,
    StringContainsNul,
    BinarySlice,
    Utf8Validate,
    FormatBool,
    FormatI64,
    FormatU64,
    FormatF32,
    FormatF64,
    IntParse,
    FloatParse,
    RtSelf,
    RtSend,
    RtSendAfter,
    RtSendLifecycle,
    RtKill,
    RtIsProcessAlive,
    RtCallToken,
    RtCallReceive,
    RtReply,
    RtSpawn,
    RtReceive,
    RtReceiveTimeout,
    RtSetPriority,
    RtYieldCheck,
    LastError,
    SocketResolve,
    SocketRecvFrom,
}

/// The name an outside function links under.
pub open spec fn link_text(rt: Rt) -> Seq<char> {
    match rt {
        Rt::Malloc => "malloc"@,
        Rt::Free => "free"@,
        Rt::Memcpy => "memcpy"@,
        Rt::Memset => "memset"@,
        Rt::MemCompare => "memcmp"@,
        Rt::RcInc => "koja_rc_inc"@,
        Rt::RcDec => "koja_rc_dec"@,
        Rt::ClosureRcDec => "koja_closure_rc_dec"@,
        Rt::ClosureDeepCopy => "koja_closure_deep_copy"@,
        Rt::HeapDeepCopy => "koja_heap_deep_copy"@,
        Rt::Panic => "__koja_panic"@,
        Rt::ConcatBits => "__koja_concat_bits"@,
        Rt::StringEq => "koja_string_eq"@,
        Rt::StringLength => "koja_string_length"@,
        Rt::StringGet => "koja_string_get"@,
        Rt::StringSlice => "koja_string_slice"@,
        Rt::StringContainsNul => "koja_string_contains_nul"@,
        Rt::BinarySlice => "koja_binary_slice"@,
        Rt::Utf8Validate => "koja_utf8_validate"@,
        Rt::FormatBool => "koja_format_bool"@,
        Rt::FormatI64 => "koja_format_i64"@,
        Rt::FormatU64 => "koja_format_u64"@,
        Rt::FormatF32 => "koja_format_f32"@,
        Rt::FormatF64 => "koja_format_f64"@,
        Rt::IntParse => "koja_int_parse"@,
        Rt::FloatParse => "koja_float_parse"@,
        Rt::RtSelf => "koja_rt_self"@,
        Rt::RtSend => "koja_rt_send"@,
        Rt::RtSendAfter => "koja_rt_send_after"@,
        Rt::RtSendLifecycle => "koja_rt_send_lifecycle"@,
        Rt::RtKill => "koja_rt_kill"@,
        Rt::RtIsProcessAlive => "koja_rt_is_process_alive"@,
        Rt::RtCallToken => "koja_rt_call_token"@,
        Rt::RtCallReceive => "koja_rt_call_receive"@,
        Rt::RtReply => "koja_rt_reply"@,
        Rt::RtSpawn => "koja_rt_spawn"@,
        Rt::RtReceive => "koja_rt_receive"@,
        Rt::RtReceiveTimeout => "koja_rt_receive_timeout"@,
        Rt::RtSetPriority => "koja_rt_set_priority"@,
        Rt::RtYieldCheck => "koja_rt_yield_check"@,
        Rt::LastError => "koja_last_error"@,
        Rt::SocketResolve => "koja_socket_resolve"@,
        Rt::SocketRecvFrom => "koja_socket_recv_from"@,
    }
}

/// The name an outside function links under.
pub fn link_name(rt: Rt) -> (r: &'static str)
    ensures
        r@ == link_text(rt),
{
    match rt {
        Rt::Malloc => "malloc",
        Rt::Free => "free",
        Rt::Memcpy => "memcpy",
        Rt::Memset => "memset",
        Rt::MemCompare => "memcmp",
        Rt::RcInc => "koja_rc_inc",
        Rt::RcDec => "koja_rc_dec",
        Rt::ClosureRcDec => "koja_closure_rc_dec",
        Rt::ClosureDeepCopy => "koja_closure_deep_copy",
        Rt::HeapDeepCopy => "koja_heap_deep_copy",
        Rt::Panic => "__koja_panic",
        Rt::ConcatBits => "__koja_concat_bits",
        Rt::StringEq => "koja_string_eq",
        Rt::StringLength => "koja_string_length",
        Rt::StringGet => "koja_string_get",
        Rt::StringSlice => "koja_string_slice",
        Rt::StringContainsNul => "koja_string_contains_nul",
        Rt::BinarySlice => "koja_binary_slice",
        Rt::Utf8Validate => "koja_utf8_validate",
        Rt::FormatBool => "koja_format_bool",
        Rt::FormatI64 => "koja_format_i64",
        Rt::FormatU64 => "koja_format_u64",
        Rt::FormatF32 => "koja_format_f32",
        Rt::FormatF64 => "koja_format_f64",
        Rt::IntParse => "koja_int_parse",
        Rt::FloatParse => "koja_float_parse",
        Rt::RtSelf => "koja_rt_self",
        Rt::RtSend => "koja_rt_send",
        Rt::RtSendAfter => "koja_rt_send_after",
        Rt::RtSendLifecycle => "koja_rt_send_lifecycle",
        Rt::RtKill => "koja_rt_kill",
        Rt::RtIsProcessAlive => "koja_rt_is_process_alive",
        Rt::RtCallToken => "koja_rt_call_token",
        Rt::RtCallReceive => "koja_rt_call_receive",
        Rt::RtReply => "koja_rt_reply",
        Rt::RtSpawn => "koja_rt_spawn",
        Rt::RtReceive => "koja_rt_receive",
        Rt::RtReceiveTimeout => "koja_rt_receive_timeout",
        Rt::RtSetPriority => "koja_rt_set_priority",
        Rt::RtYieldCheck => "koja_rt_yield_check",
        Rt::LastError => "koja_last_error",
        Rt::SocketResolve => "koja_socket_resolve",
        Rt::SocketRecvFrom => "koja_socket_recv_from",
    }
}


/// The result type of an outside function.
pub open spec fn rt_ret(rt: Rt) -> LType {
    match rt {
        Rt::Malloc | Rt::Memcpy | Rt::Memset | Rt::ClosureDeepCopy | Rt::HeapDeepCopy => LType::Ptr,
        Rt::ConcatBits | Rt::StringGet | Rt::StringSlice | Rt::BinarySlice => LType::Ptr,
        Rt::FormatBool | Rt::FormatI64 | Rt::FormatU64 | Rt::FormatF32 | Rt::FormatF64 => LType::Ptr,
        Rt::LastError | Rt::SocketResolve | Rt::SocketRecvFrom => LType::Ptr,
        Rt::MemCompare => LType::I32,
        Rt::StringEq | Rt::StringLength | Rt::StringContainsNul | Rt::Utf8Validate => LType::I64,
        Rt::IntParse | Rt::FloatParse | Rt::RtSelf | Rt::RtIsProcessAlive => LType::I64,
        Rt::RtCallToken | Rt::RtCallReceive | Rt::RtReply | Rt::RtSpawn => LType::I64,
        Rt::RtReceive | Rt::RtReceiveTimeout => LType::I64,
        _ => LType::Void,
    }
}

/// The result type of an outside function.
pub fn rt_return(rt: Rt) -> (r: LType)
    ensures
        r == rt_ret(rt),
{
    match rt {
        Rt::Malloc | Rt::Memcpy | Rt::Memset | Rt::ClosureDeepCopy | Rt::HeapDeepCopy => LType::Ptr,
        Rt::ConcatBits | Rt::StringGet | Rt::StringSlice | Rt::BinarySlice => LType::Ptr,
        Rt::FormatBool | Rt::FormatI64 | Rt::FormatU64 | Rt::FormatF32 | Rt::FormatF64 => LType::Ptr,
        Rt::LastError | Rt::SocketResolve | Rt::SocketRecvFrom => LType::Ptr,
        Rt::MemCompare => LType::I32,
        Rt::StringEq | Rt::StringLength | Rt::StringContainsNul | Rt::Utf8Validate => LType::I64,
        Rt::IntParse | Rt::FloatParse | Rt::RtSelf | Rt::RtIsProcessAlive => LType::I64,
        Rt::RtCallToken | Rt::RtCallReceive | Rt::RtReply | Rt::RtSpawn => LType::I64,
        Rt::RtReceive | Rt::RtReceiveTimeout => LType::I64,
        _ => LType::Void,
    }
}

/// The parameter types of an outside function.
pub open spec fn rt_sig(rt: Rt) -> Seq<LType> {
    match rt {
        Rt::RtSelf | Rt::RtCallToken | Rt::RtYieldCheck | Rt::LastError => seq![],
        Rt::Malloc | Rt::RtKill | Rt::RtIsProcessAlive | Rt::RtSetPriority => seq![LType::I64],
        Rt::FormatBool | Rt::FormatI64 | Rt::FormatU64 => seq![LType::I64],
        Rt::FormatF32 => seq![LType::F32],
        Rt::FormatF64 => seq![LType::F64],
        Rt::Memcpy | Rt::MemCompare => seq![LType::Ptr, LType::Ptr, LType::I64],
        Rt::Memset => seq![LType::Ptr, LType::I32, LType::I64],
        Rt::ConcatBits | Rt::StringEq => seq![LType::Ptr, LType::Ptr],
        Rt::IntParse | Rt::FloatParse => seq![LType::Ptr, LType::Ptr],
        Rt::StringGet | Rt::Utf8Validate => seq![LType::Ptr, LType::I64],
        Rt::StringSlice | Rt::BinarySlice => seq![LType::Ptr, LType::I64, LType::I64],
        Rt::RtSend => seq![LType::I64, LType::Ptr, LType::I64, LType::Ptr],
        Rt::RtSendAfter => seq![LType::I64, LType::Ptr, LType::I64, LType::I64, LType::Ptr],
        Rt::RtSendLifecycle => seq![LType::I64, LType::I64],
        Rt::RtCallReceive => seq![LType::I64, LType::Ptr, LType::I64, LType::I64],
        Rt::RtReply => seq![LType::I64, LType::I64, LType::Ptr, LType::I64, LType::Ptr],
        Rt::RtSpawn => seq![LType::Ptr, LType::Ptr, LType::I64, LType::Ptr],
        Rt::RtReceive => seq![LType::Ptr, LType::I64],
        Rt::RtReceiveTimeout => seq![LType::Ptr, LType::I64, LType::I64],
        Rt::SocketRecvFrom => seq![LType::I64, LType::I64],
        _ => seq![LType::Ptr],
    }
}

/// The parameter types of an outside function.
pub fn rt_params(rt: Rt) -> (r: Vec<LType>)
    ensures
        r@ == rt_sig(rt),
{
    let r: Vec<LType> = match rt {
        Rt::RtSelf | Rt::RtCallToken | Rt::RtYieldCheck | Rt::LastError => vec![],
        Rt::Malloc | Rt::RtKill | Rt::RtIsProcessAlive | Rt::RtSetPriority => vec![LType::I64],
        Rt::FormatBool | Rt::FormatI64 | Rt::FormatU64 => vec![LType::I64],
        Rt::FormatF32 => vec![LType::F32],
        Rt::FormatF64 => vec![LType::F64],
        Rt::Memcpy | Rt::MemCompare => vec![LType::Ptr, LType::Ptr, LType::I64],
        Rt::Memset => vec![LType::Ptr, LType::I32, LType::I64],
        Rt::ConcatBits | Rt::StringEq => vec![LType::Ptr, LType::Ptr],
        Rt::IntParse | Rt::FloatParse => vec![LType::Ptr, LType::Ptr],
        Rt::StringGet | Rt::Utf8Validate => vec![LType::Ptr, LType::I64],
        Rt::StringSlice | Rt::BinarySlice => vec![LType::Ptr, LType::I64, LType::I64],
        Rt::RtSend => vec![LType::I64, LType::Ptr, LType::I64, LType::Ptr],
        Rt::RtSendAfter => vec![LType::I64, LType::Ptr, LType::I64, LType::I64, LType::Ptr],
        Rt::RtSendLifecycle => vec![LType::I64, LType::I64],
        Rt::RtCallReceive => vec![LType::I64, LType::Ptr, LType::I64, LType::I64],
        Rt::RtReply => vec![LType::I64, LType::I64, LType::Ptr, LType::I64, LType::Ptr],
        Rt::RtSpawn => vec![LType::Ptr, LType::Ptr, LType::I64, LType::Ptr],
        Rt::RtReceive => vec![LType::Ptr, LType::I64],
        Rt::RtReceiveTimeout => vec![LType::Ptr, LType::I64, LType::I64],
        Rt::SocketRecvFrom => vec![LType::I64, LType::I64],
        _ => vec![LType::Ptr],
    };
    assert(r@ =~= rt_sig(rt));
    r
}

} // verus!
