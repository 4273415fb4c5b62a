//! The library handle and what is resolved through it.
//!
//! Only the operating system can load a library, look a name up in it and
//! unload it, and this module never does. It decides what the loader is to
//! be asked, and what the loader's answer means. A host asks a function here
//! for a request, carries the request to the loader, and comes back with the
//! answer: an address, which is 0 where the loader failed, and the
//! diagnostic that the system then gave.

use crate::buffer::{has_no_nul, CBuffer};
use crate::call::{args_view, check_call, CallDescriptor, CallDescriptorView};
use crate::error::{BridgeError, OsDiagnostic};
use crate::scan::copy_range;
use crate::types::{ArgumentValue, TypeDescriptor};
use vstd::prelude::*;

verus! {

/// A code address that a name was resolved to, and the name. It says
/// nothing of the function that stands at the address: the types of a call
/// travel with the call.
#[derive(Debug)]
pub struct Symbol {
    address: usize,
    name: CBuffer,
}

impl Symbol {
    #[verifier::type_invariant]
    spec fn inv(self) -> bool {
        self.address != 0
    }

    /// The code address.
    pub closed spec fn spec_address(&self) -> usize {
        self.address
    }

    /// The name that was looked up.
    pub closed spec fn spec_name(&self) -> Seq<u8> {
        self.name@
    }

    /// The code address, which is never 0.
    pub fn address(&self) -> (a: usize)
        ensures
            a == self.spec_address(),
            a != 0,
    {
        proof {
            use_type_invariant(self);
        }
        self.address
    }

    /// The name that was looked up.
    pub fn name(&self) -> (n: &CBuffer)
        ensures
            n@ == self.spec_name(),
    {
        &self.name
    }
}

/// An open library: the handle that the loader gave for it, which is never
/// 0. The handle is given up by `close` and in no other way, and `close`
/// takes the value, so no handle is given up twice.
#[derive(Debug)]
pub struct DllManager {
    handle: usize,
}

impl DllManager {
    #[verifier::type_invariant]
    spec fn inv(self) -> bool {
        self.handle != 0
    }

    /// The loader's handle.
    pub closed spec fn spec_handle(&self) -> usize {
        self.handle
    }

    /// The path that the loader is asked to load, where the loader is asked
    /// at all: it is not asked for a path at which no file stands, nor for
    /// one that holds a zero byte, at which no file can stand.
    pub open spec fn spec_load_request(path: Seq<u8>, exists: bool) -> Option<Seq<u8>> {
        if exists && has_no_nul(path) {
            Some(path)
        } else {
            None
        }
    }

    /// Decides what to ask of the loader for the file at `path`, given
    /// whether a file stands there: the terminated path to load, or
    /// `PathNotFound`.
    pub fn load_request(path: &[u8], exists: bool) -> (r: Result<CBuffer, BridgeError>)
        ensures
            match Self::spec_load_request(path@, exists) {
                Some(request) => r matches Ok(buffer) && buffer@ == request,
                None => r == Err::<CBuffer, BridgeError>(BridgeError::PathNotFound),
            },
    {
        if !exists {
            return Err(BridgeError::PathNotFound);
        }
        match CBuffer::new(path) {
            Some(buffer) => Ok(buffer),
            None => Err(BridgeError::PathNotFound),
        }
    }

    /// Takes the loader's answer to a load request: an open library for a
    /// handle, `LoadFailed` with the system's diagnostic for 0.
    pub fn new(raw: usize, diagnostic: OsDiagnostic) -> (r: Result<DllManager, BridgeError>)
        ensures
            raw != 0 ==> (r matches Ok(manager) && manager.spec_handle() == raw),
            raw == 0 ==> r == Err::<DllManager, BridgeError>(BridgeError::LoadFailed(diagnostic)),
    {
        if raw == 0 {
            Err(BridgeError::LoadFailed(diagnostic))
        } else {
            Ok(DllManager { handle: raw })
        }
    }

    /// The loader's handle, to look names up with.
    pub fn handle(&self) -> (h: usize)
        ensures
            h == self.spec_handle(),
            h != 0,
    {
        proof {
            use_type_invariant(self);
        }
        self.handle
    }

    /// Decides what to ask of the loader for `name`: the terminated name to
    /// look up, as it stands, or `SymbolNotFound` for a name that holds a
    /// zero byte, which no library exports.
    pub fn symbol_request(&self, name: &[u8]) -> (r: Result<CBuffer, BridgeError>)
        ensures
            has_no_nul(name@) ==> (r matches Ok(buffer) && buffer@ == name@),
            !has_no_nul(name@) ==> (r matches Err(
                BridgeError::SymbolNotFound { name: reported, diagnostic: None },
            ) && reported@ == name@),
    {
        match CBuffer::new(name) {
            Some(buffer) => Ok(buffer),
            None => Err(
                BridgeError::SymbolNotFound {
                    name: copy_range(name, 0, name.len()),
                    diagnostic: None,
                },
            ),
        }
    }

    /// Takes the loader's answer to the lookup of `name`: a symbol for an
    /// address, `SymbolNotFound` with the system's diagnostic for 0.
    pub fn get_func(&self, name: CBuffer, raw: usize, diagnostic: OsDiagnostic) -> (r: Result<
        Symbol,
        BridgeError,
    >)
        ensures
            raw != 0 ==> (r matches Ok(symbol) && symbol.spec_address() == raw
                && symbol.spec_name() == name@),
            raw == 0 ==> (r matches Err(
                BridgeError::SymbolNotFound { name: reported, diagnostic: Some(d) },
            ) && reported@ == name@ && d == diagnostic),
    {
        if raw == 0 {
            Err(BridgeError::SymbolNotFound { name: name.to_bytes(), diagnostic: Some(diagnostic) })
        } else {
            Ok(Symbol { address: raw, name })
        }
    }

    /// Prepares the call of `name` with the arguments `args` and the return
    /// type `ret`, given the loader's answer to the lookup of `name`. A
    /// failed lookup counts first; then the descriptor is built.
    pub fn call_func(
        &self,
        name: CBuffer,
        raw: usize,
        diagnostic: OsDiagnostic,
        args: Vec<(TypeDescriptor, ArgumentValue)>,
        ret: TypeDescriptor,
    ) -> (r: Result<(Symbol, CallDescriptor), BridgeError>)
        ensures
            raw == 0 ==> (r matches Err(
                BridgeError::SymbolNotFound { name: reported, diagnostic: Some(d) },
            ) && reported@ == name@ && d == diagnostic),
            raw != 0 ==> match check_call(args_view(args@)) {
                Some(failure) => r == Err::<(Symbol, CallDescriptor), BridgeError>(
                    BridgeError::CallFailed(failure),
                ),
                None => {
                    &&& r matches Ok((symbol, descriptor))
                    &&& symbol.spec_address() == raw
                    &&& symbol.spec_name() == name@
                    &&& descriptor@ == (CallDescriptorView { args: args_view(args@), ret })
                },
            },
    {
        match self.get_func(name, raw, diagnostic) {
            Err(e) => Err(e),
            Ok(symbol) => match CallDescriptor::new(args, ret) {
                Err(e) => Err(e),
                Ok(descriptor) => Ok((symbol, descriptor)),
            },
        }
    }

    /// Closes the library: the handle that the loader is to release. The
    /// code of the library is gone after that, and with it every symbol that
    /// was resolved through this handle.
    pub fn close(self) -> (released: usize)
        ensures
            released == self.spec_handle(),
            released != 0,
    {
        proof {
            use_type_invariant(&self);
        }
        self.handle
    }
}

} // verus!
