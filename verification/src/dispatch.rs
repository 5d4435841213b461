//! The tool registry and dispatcher.
//!
//! The callable operations form a closed enumeration. A registry holds the
//! shared counter and the set of registered operations; dispatching an
//! invocation routes it by name, validates the argument shape against the
//! operation's declared parameters, runs it, and returns a typed result.

use vstd::prelude::*;
use vstd::string::StringExecFns;
use vstd::utf8::encode_utf8;
use crate::cidr::in_cidr;
use crate::counter::{wrap_dec, wrap_inc, Counter};
use crate::errors::{OpError, RegisterError};
use crate::ip::valid_ipv4;
use crate::ops::add_result;

verus! {

/// The closed set of callable operations.
#[derive(Clone, Copy, Debug, PartialEq, Eq, Structural)]
pub enum OpKind {
    Increment,
    Decrement,
    GetValue,
    Add,
    IsValidIpv4,
    IsIpInCidr,
}

/// A primitive argument type an operation can declare.
#[derive(Clone, Copy, Debug, PartialEq, Eq, Structural)]
pub enum ArgType {
    Integer,
    Text,
}

/// A primitive result type an operation can declare.
#[derive(Clone, Copy, Debug, PartialEq, Eq, Structural)]
pub enum RetType {
    Integer,
    Boolean,
}

/// An argument value as received from the channel.
#[derive(Debug, PartialEq, Eq)]
pub enum Value {
    Int(i32),
    Str(String),
}

/// A typed result handed back to the channel.
#[derive(Clone, Copy, Debug, PartialEq, Eq)]
pub enum OpResult {
    Int(i32),
    Bool(bool),
}

/// The name under which an operation is dispatched.
pub open spec fn op_name(k: OpKind) -> Seq<char> {
    match k {
        OpKind::Increment => "increment"@,
        OpKind::Decrement => "decrement"@,
        OpKind::GetValue => "get_value"@,
        OpKind::Add => "add"@,
        OpKind::IsValidIpv4 => "is_valid_ipv4"@,
        OpKind::IsIpInCidr => "is_ip_in_cidr"@,
    }
}

/// The human-readable description served verbatim for discovery.
pub open spec fn op_description(k: OpKind) -> Seq<char> {
    match k {
        OpKind::Increment => "Increment the counter by 1"@,
        OpKind::Decrement => "Decrement the counter by 1"@,
        OpKind::GetValue => "Get the current counter value"@,
        OpKind::Add => "Add two numbers together"@,
        OpKind::IsValidIpv4 => "Check if a string is a valid IPv4 address"@,
        OpKind::IsIpInCidr => "Check if an IP address is within a CIDR range"@,
    }
}

/// The ordered parameter list an operation declares: name and type.
pub open spec fn op_params(k: OpKind) -> Seq<(Seq<char>, ArgType)> {
    match k {
        OpKind::Increment => seq![],
        OpKind::Decrement => seq![],
        OpKind::GetValue => seq![],
        OpKind::Add => seq![("a"@, ArgType::Integer), ("b"@, ArgType::Integer)],
        OpKind::IsValidIpv4 => seq![("ip_str"@, ArgType::Text)],
        OpKind::IsIpInCidr => seq![("ip_str"@, ArgType::Text), ("cidr_str"@, ArgType::Text)],
    }
}

/// The result type an operation declares.
pub open spec fn op_ret(k: OpKind) -> RetType {
    match k {
        OpKind::Increment => RetType::Integer,
        OpKind::Decrement => RetType::Integer,
        OpKind::GetValue => RetType::Integer,
        OpKind::Add => RetType::Integer,
        OpKind::IsValidIpv4 => RetType::Boolean,
        OpKind::IsIpInCidr => RetType::Boolean,
    }
}

/// A value fits a declared argument type.
pub open spec fn value_has_type(v: Value, t: ArgType) -> bool {
    match t {
        ArgType::Integer => v is Int,
        ArgType::Text => v is Str,
    }
}

/// The arguments fit the operation's declared parameters: same count, each
/// of the declared type.
pub open spec fn args_match(k: OpKind, args: Seq<Value>) -> bool {
    &&& args.len() == op_params(k).len()
    &&& forall|j: int|
        0 <= j < args.len() ==> value_has_type(#[trigger] args[j], op_params(k)[j].1)
}

/// The first registered operation with the given name, if any.
pub open spec fn find_kind(ops: Seq<OpKind>, name: Seq<char>) -> Option<OpKind>
    decreases ops.len(),
{
    if ops.len() == 0 {
        None
    } else if op_name(ops[0]) == name {
        Some(ops[0])
    } else {
        find_kind(ops.drop_first(), name)
    }
}

/// What a well-typed invocation returns, given the counter value it sees.
pub open spec fn op_output(k: OpKind, args: Seq<Value>, c0: int) -> Result<OpResult, OpError> {
    match k {
        OpKind::Increment => Ok(OpResult::Int(wrap_inc(c0) as i32)),
        OpKind::Decrement => Ok(OpResult::Int(wrap_dec(c0) as i32)),
        OpKind::GetValue => Ok(OpResult::Int(c0 as i32)),
        OpKind::Add => match add_result(args[0]->Int_0 as int, args[1]->Int_0 as int) {
            Ok(v) => Ok(OpResult::Int(v)),
            Err(e) => Err(e),
        },
        OpKind::IsValidIpv4 => Ok(OpResult::Bool(valid_ipv4(encode_utf8(args[0]->Str_0@)))),
        OpKind::IsIpInCidr => Ok(
            OpResult::Bool(in_cidr(encode_utf8(args[0]->Str_0@), encode_utf8(args[1]->Str_0@))),
        ),
    }
}

/// The counter value after a well-typed invocation: only the counter
/// mutators change it.
pub open spec fn op_next_counter(k: OpKind, c0: int) -> int {
    match k {
        OpKind::Increment => wrap_inc(c0),
        OpKind::Decrement => wrap_dec(c0),
        _ => c0,
    }
}

/// A parameter of an operation, for discovery.
pub struct ParamInfo {
    pub name: String,
    pub ty: ArgType,
}

/// An operation descriptor, served for discovery: name, ordered parameter
/// list, result type, and the verbatim description.
pub struct OpDescriptor {
    pub name: String,
    pub description: String,
    pub params: Vec<ParamInfo>,
    pub ret: RetType,
}

/// The descriptor carries exactly the operation's declared surface.
pub open spec fn desc_matches(d: OpDescriptor, k: OpKind) -> bool {
    &&& d.name@ == op_name(k)
    &&& d.description@ == op_description(k)
    &&& d.ret == op_ret(k)
    &&& d.params@.len() == op_params(k).len()
    &&& forall|j: int|
        0 <= j < op_params(k).len() ==> (#[trigger] d.params@[j]).name@ == op_params(k)[j].0
            && d.params@[j].ty == op_params(k)[j].1
}

/// String equality, decided on the UTF-8 bytes; equal bytes mean equal
/// character sequences because UTF-8 decoding inverts encoding.
fn str_eq(a: &str, b: &str) -> (r: bool)
    ensures
        r == (a@ == b@),
{
    let ab = a.as_bytes();
    let bb = b.as_bytes();
    if ab.len() != bb.len() {
        return false;
    }
    let n = ab.len();
    let mut i: usize = 0;
    while i < n
        invariant
            n == ab@.len() == bb@.len(),
            i <= n,
            ab@ == encode_utf8(a@),
            bb@ == encode_utf8(b@),
            forall|j: int| 0 <= j < i ==> ab@[j] == bb@[j],
        decreases n - i,
    {
        if ab[i] != bb[i] {
            return false;
        }
        i = i + 1;
    }
    proof {
        assert(ab@ =~= bb@);
        vstd::utf8::encode_utf8_decode_utf8(a@);
        vstd::utf8::encode_utf8_decode_utf8(b@);
    }
    true
}

/// The dispatch name of an operation.
pub fn kind_name(k: OpKind) -> (r: &'static str)
    ensures
        r@ == op_name(k),
{
    match k {
        OpKind::Increment => "increment",
        OpKind::Decrement => "decrement",
        OpKind::GetValue => "get_value",
        OpKind::Add => "add",
        OpKind::IsValidIpv4 => "is_valid_ipv4",
        OpKind::IsIpInCidr => "is_ip_in_cidr",
    }
}

/// The description of an operation, served verbatim.
pub fn kind_description(k: OpKind) -> (r: &'static str)
    ensures
        r@ == op_description(k),
{
    match k {
        OpKind::Increment => "Increment the counter by 1",
        OpKind::Decrement => "Decrement the counter by 1",
        OpKind::GetValue => "Get the current counter value",
        OpKind::Add => "Add two numbers together",
        OpKind::IsValidIpv4 => "Check if a string is a valid IPv4 address",
        OpKind::IsIpInCidr => "Check if an IP address is within a CIDR range",
    }
}

/// The descriptor of one operation.
pub fn describe(k: OpKind) -> (d: OpDescriptor)
    ensures
        desc_matches(d, k),
{
    let name = String::from_str(kind_name(k));
    let description = String::from_str(kind_description(k));
    let mut params: Vec<ParamInfo> = Vec::new();
    let ret: RetType;
    match k {
        OpKind::Increment | OpKind::Decrement | OpKind::GetValue => {
            ret = RetType::Integer;
        },
        OpKind::Add => {
            params.push(ParamInfo { name: String::from_str("a"), ty: ArgType::Integer });
            params.push(ParamInfo { name: String::from_str("b"), ty: ArgType::Integer });
            ret = RetType::Integer;
        },
        OpKind::IsValidIpv4 => {
            params.push(ParamInfo { name: String::from_str("ip_str"), ty: ArgType::Text });
            ret = RetType::Boolean;
        },
        OpKind::IsIpInCidr => {
            params.push(ParamInfo { name: String::from_str("ip_str"), ty: ArgType::Text });
            params.push(ParamInfo { name: String::from_str("cidr_str"), ty: ArgType::Text });
            ret = RetType::Boolean;
        },
    }
    OpDescriptor { name, description, params, ret }
}

/// The registry: the shared counter and the registered operations. One
/// registry instance serves one connection, so counter access is serialized
/// by exclusive ownership.
pub struct Registry {
    pub counter: Counter,
    pub ops: Vec<OpKind>,
}

impl Registry {
    /// An empty registry with the counter at zero.
    pub fn new() -> (r: Registry)
        ensures
            r.counter.count == 0,
            r.ops@ == Seq::<OpKind>::empty(),
    {
        Registry { counter: Counter::new(), ops: Vec::new() }
    }

    /// Registers one operation; fails exactly when one with the same name
    /// is already registered. Operation names are distinct, so that is the
    /// same as the operation itself being registered twice.
    pub fn register(&mut self, k: OpKind) -> (r: Result<(), RegisterError>)
        ensures
            final(self).counter == old(self).counter,
            old(self).ops@.contains(k) ==> r == Err::<(), RegisterError>(
                RegisterError::DuplicateName,
            ) && final(self).ops@ == old(self).ops@,
            !old(self).ops@.contains(k) ==> r == Ok::<(), RegisterError>(())
                && final(self).ops@ == old(self).ops@.push(k),
    {
        let n = self.ops.len();
        let mut i: usize = 0;
        while i < n
            invariant
                n == self.ops@.len(),
                i <= n,
                *self == *old(self),
                forall|j: int| 0 <= j < i ==> self.ops@[j] != k,
            decreases n - i,
        {
            if self.ops[i] == k {
                return Err(RegisterError::DuplicateName);
            }
            i = i + 1;
        }
        self.ops.push(k);
        Ok(())
    }

    /// A registry with all six operations registered, as at server startup.
    pub fn with_all_ops() -> (r: Registry)
        ensures
            r.counter.count == 0,
            r.ops@ == seq![
                OpKind::Increment,
                OpKind::Decrement,
                OpKind::GetValue,
                OpKind::Add,
                OpKind::IsValidIpv4,
                OpKind::IsIpInCidr,
            ],
    {
        let mut r = Registry::new();
        let _ = r.register(OpKind::Increment);
        let _ = r.register(OpKind::Decrement);
        let _ = r.register(OpKind::GetValue);
        let _ = r.register(OpKind::Add);
        let _ = r.register(OpKind::IsValidIpv4);
        let _ = r.register(OpKind::IsIpInCidr);
        proof {
            assert(r.ops@ =~= seq![
                OpKind::Increment,
                OpKind::Decrement,
                OpKind::GetValue,
                OpKind::Add,
                OpKind::IsValidIpv4,
                OpKind::IsIpInCidr,
            ]);
        }
        r
    }

    /// The descriptors of the registered operations, in registration order.
    pub fn descriptors(&self) -> (ds: Vec<OpDescriptor>)
        ensures
            ds@.len() == self.ops@.len(),
            forall|i: int| 0 <= i < self.ops@.len() ==> desc_matches(#[trigger] ds@[i], self.ops@[i]),
    {
        let mut ds: Vec<OpDescriptor> = Vec::new();
        let n = self.ops.len();
        let mut i: usize = 0;
        while i < n
            invariant
                n == self.ops@.len(),
                i <= n,
                ds@.len() == i,
                forall|j: int| 0 <= j < i ==> desc_matches(#[trigger] ds@[j], self.ops@[j]),
            decreases n - i,
        {
            ds.push(describe(self.ops[i]));
            i = i + 1;
        }
        ds
    }

    /// Routes one invocation: `UnknownOperation` when no registered
    /// operation has the requested name, `InvalidArguments` when the
    /// argument shape does not fit, otherwise the operation's own result.
    /// Only `increment` and `decrement` change the counter.
    pub fn dispatch(&mut self, name: &str, args: &Vec<Value>) -> (r: Result<OpResult, OpError>)
        ensures
            final(self).ops@ == old(self).ops@,
            match find_kind(old(self).ops@, name@) {
                None => r == Err::<OpResult, OpError>(OpError::UnknownOperation)
                    && final(self).counter == old(self).counter,
                Some(k) => if args_match(k, args@) {
                    r == op_output(k, args@, old(self).counter.count as int)
                        && final(self).counter.count as int == op_next_counter(
                        k,
                        old(self).counter.count as int,
                    )
                } else {
                    r == Err::<OpResult, OpError>(OpError::InvalidArguments)
                        && final(self).counter == old(self).counter
                },
            },
    {
        let n = self.ops.len();
        let mut i: usize = 0;
        let mut found: Option<OpKind> = None;
        proof {
            assert(self.ops@.skip(0) =~= self.ops@);
        }
        while i < n && found.is_none()
            invariant
                n == self.ops@.len(),
                i <= n,
                *self == *old(self),
                found is None ==> find_kind(self.ops@, name@) == find_kind(
                    self.ops@.skip(i as int),
                    name@,
                ),
                found is Some ==> find_kind(self.ops@, name@) == found,
            decreases n - i,
        {
            let k = self.ops[i];
            proof {
                assert(self.ops@.skip(i as int)[0] == self.ops@[i as int]);
                assert(self.ops@.skip(i as int).drop_first() =~= self.ops@.skip(i as int + 1));
            }
            if str_eq(name, kind_name(k)) {
                found = Some(k);
            }
            i = i + 1;
        }
        proof {
            if found is None {
                assert(self.ops@.skip(n as int) =~= Seq::<OpKind>::empty());
            }
        }
        let k = match found {
            Some(k) => k,
            None => {
                return Err(OpError::UnknownOperation);
            },
        };
        match k {
            OpKind::Increment => {
                if args.len() != 0 {
                    return Err(OpError::InvalidArguments);
                }
                let v = self.counter.increment();
                Ok(OpResult::Int(v))
            },
            OpKind::Decrement => {
                if args.len() != 0 {
                    return Err(OpError::InvalidArguments);
                }
                let v = self.counter.decrement();
                Ok(OpResult::Int(v))
            },
            OpKind::GetValue => {
                if args.len() != 0 {
                    return Err(OpError::InvalidArguments);
                }
                Ok(OpResult::Int(self.counter.get_value()))
            },
            OpKind::Add => {
                if args.len() != 2 {
                    return Err(OpError::InvalidArguments);
                }
                let a = match &args[0] {
                    Value::Int(x) => *x,
                    _ => {
                        return Err(OpError::InvalidArguments);
                    },
                };
                let b = match &args[1] {
                    Value::Int(x) => *x,
                    _ => {
                        return Err(OpError::InvalidArguments);
                    },
                };
                match crate::ops::add(a, b) {
                    Ok(v) => Ok(OpResult::Int(v)),
                    Err(e) => Err(e),
                }
            },
            OpKind::IsValidIpv4 => {
                if args.len() != 1 {
                    return Err(OpError::InvalidArguments);
                }
                let s = match &args[0] {
                    Value::Str(s) => s,
                    _ => {
                        return Err(OpError::InvalidArguments);
                    },
                };
                Ok(OpResult::Bool(crate::ip::is_valid_ipv4(s.as_str())))
            },
            OpKind::IsIpInCidr => {
                if args.len() != 2 {
                    return Err(OpError::InvalidArguments);
                }
                let ip = match &args[0] {
                    Value::Str(s) => s,
                    _ => {
                        return Err(OpError::InvalidArguments);
                    },
                };
                let cidr = match &args[1] {
                    Value::Str(s) => s,
                    _ => {
                        return Err(OpError::InvalidArguments);
                    },
                };
                Ok(OpResult::Bool(crate::cidr::is_ip_in_cidr(ip.as_str(), cidr.as_str())))
            },
        }
    }
}

} // verus!

