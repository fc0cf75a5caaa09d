//! PSCI power-off: which conduit (SMC or HVC) the firmware wants, parsed from
//! the device tree's `method` property. Issuing the actual secure call is the
//! embedding kernel's part; choosing and validating the method is decided and
//! verified here.

use vstd::prelude::*;
use vstd::string::StringSliceAdditionalSpecFns;

verus! {

/// The conduit the firmware accepts PSCI calls through.
#[derive(Clone, Copy, PartialEq, Eq, Structural, Debug)]
pub enum Method {
    Smc,
    Hvc,
}

/// Why a PSCI node could not be probed.
#[derive(Clone, Copy, PartialEq, Eq, Structural, Debug)]
pub enum PowerError {
    /// The device-tree node carries no `method` property.
    NoMethodProperty,
    /// The property names a conduit this driver does not support.
    UnsupportedMethod,
}

/// The letter `s` as a byte.
pub const BYTE_S: u8 = 115;

/// The letter `m` as a byte.
pub const BYTE_M: u8 = 109;

/// The letter `c` as a byte.
pub const BYTE_C: u8 = 99;

/// The letter `h` as a byte.
pub const BYTE_H: u8 = 104;

/// The letter `v` as a byte.
pub const BYTE_V: u8 = 118;

/// The bytes of the property value naming the SMC conduit: `smc`.
pub open spec fn smc_bytes() -> Seq<u8> {
    seq![BYTE_S, BYTE_M, BYTE_C]
}

/// The bytes of the property value naming the HVC conduit: `hvc`.
pub open spec fn hvc_bytes() -> Seq<u8> {
    seq![BYTE_H, BYTE_V, BYTE_C]
}

/// Parses a `method` property value: exactly `smc` or `hvc`, anything else is
/// unsupported.
pub fn method_from_str(value: &str) -> (r: Result<Method, PowerError>)
    ensures
        (r == Ok::<Method, PowerError>(Method::Smc)) <==> value.spec_bytes() =~= smc_bytes(),
        (r == Ok::<Method, PowerError>(Method::Hvc)) <==> value.spec_bytes() =~= hvc_bytes(),
        r is Err ==> r->Err_0 == PowerError::UnsupportedMethod,
{
    let b = value.as_bytes();
    if b.len() == 3 && b[0] == BYTE_S && b[1] == BYTE_M && b[2] == BYTE_C {
        proof {
            assert(value.spec_bytes() =~= smc_bytes());
        }
        Ok(Method::Smc)
    } else if b.len() == 3 && b[0] == BYTE_H && b[1] == BYTE_V && b[2] == BYTE_C {
        proof {
            assert(value.spec_bytes() =~= hvc_bytes());
        }
        Ok(Method::Hvc)
    } else {
        proof {
            assert(!(value.spec_bytes() =~= smc_bytes()));
            assert(!(value.spec_bytes() =~= hvc_bytes()));
        }
        Err(PowerError::UnsupportedMethod)
    }
}

/// The PSCI driver instance: nothing but the probed conduit.
#[derive(Clone, Copy, PartialEq, Eq, Structural, Debug)]
pub struct Psci {
    pub method: Method,
}

impl Psci {
    /// Opening the driver has nothing to do.
    pub fn open(&mut self) -> (r: Result<(), PowerError>)
        ensures
            r is Ok,
    {
        Ok(())
    }

    /// Closing the driver has nothing to do.
    pub fn close(&mut self) -> (r: Result<(), PowerError>)
        ensures
            r is Ok,
    {
        Ok(())
    }

    /// The conduit a shutdown must be issued through.
    pub fn shutdown_conduit(&self) -> (r: Method)
        ensures
            r == self.method,
    {
        self.method
    }
}

/// Probes a PSCI device-tree node from its `method` property: absent property
/// and unsupported conduit are the two typed failures.
pub fn probe_psci(method_property: Option<&str>) -> (r: Result<Psci, PowerError>)
    ensures
        method_property is None ==> r == Err::<Psci, PowerError>(PowerError::NoMethodProperty),
        method_property matches Some(v) ==> ({
            &&& (v.spec_bytes() =~= smc_bytes()) ==> r == Ok::<Psci, PowerError>(
                Psci { method: Method::Smc },
            )
            &&& (v.spec_bytes() =~= hvc_bytes()) ==> r == Ok::<Psci, PowerError>(
                Psci { method: Method::Hvc },
            )
            &&& !(v.spec_bytes() =~= smc_bytes()) && !(v.spec_bytes() =~= hvc_bytes()) ==> r
                == Err::<Psci, PowerError>(PowerError::UnsupportedMethod)
        }),
{
    match method_property {
        None => Err(PowerError::NoMethodProperty),
        Some(v) => match method_from_str(v) {
            Ok(m) => Ok(Psci { method: m }),
            Err(e) => Err(e),
        },
    }
}

} // verus!
