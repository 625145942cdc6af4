use vstd::prelude::*;

use crate::measurement::{Axis, Measurement, Quaternion};

verus! {

/// Why a candidate module could not be opened.
#[derive(Debug, PartialEq, Eq)]
pub enum LoadError {
    /// The loader refused the file; the loader's own message is kept.
    OpenFailed(String),
}

/// The exported functions a filter module may provide.
#[derive(Clone, Copy, Debug, PartialEq, Eq, Structural)]
pub enum EntryPoint {
    /// `madgwick_filter`, the mandatory filter step.
    Filter,
    /// `set_beta`, an optional tuning setter.
    SetBeta,
    /// `set_deltat`, an optional tuning setter.
    SetDeltat,
}

/// The mechanism that opens a native module and reaches its exported functions.
///
/// Native modules keep internal state, so what a call returns is related to
/// its arguments rather than fixed by them. The spec functions below are
/// those relations; an implementation may refine them, and by default they
/// claim nothing. `call_filter` and `call_setter` are used only for entry
/// points that `probe` reported as present on the same value.
pub trait NativeModule: Sized {
    /// The module was opened from `path`.
    open spec fn opened_from(&self, path: Seq<char>) -> bool {
        true
    }

    /// Opening `path` can fail with `e`.
    open spec fn open_failed(path: Seq<char>, e: LoadError) -> bool {
        true
    }

    /// Probing `entry` can give `found`.
    open spec fn probe_gave(&self, entry: EntryPoint, found: bool) -> bool {
        true
    }

    /// The filter step can return `q` for these inputs.
    open spec fn filter_gave(&self, acc: Axis, gyro: Axis, mag: Axis, q: Quaternion) -> bool {
        true
    }

    /// The setter `entry` was handed `value`.
    open spec fn setter_got(&self, entry: EntryPoint, value: u32) -> bool {
        true
    }

    /// Opens the module stored at `path`, without resolving any symbol yet.
    fn open(path: &String) -> (r: Result<Self, LoadError>)
        ensures
            r matches Ok(n) ==> n.opened_from(path@),
            r matches Err(e) ==> Self::open_failed(path@, e),
    ;

    /// Whether the module exports `entry` with the expected signature.
    fn probe(&self, entry: EntryPoint) -> (r: bool)
        ensures
            self.probe_gave(entry, r),
    ;

    /// Calls the module's filter step on one measurement.
    fn call_filter(&self, acc: Axis, gyro: Axis, mag: Axis) -> (r: Quaternion)
        ensures
            self.filter_gave(acc, gyro, mag, r),
    ;

    /// Calls one of the module's tuning setters with `value`.
    fn call_setter(&self, entry: EntryPoint, value: u32)
        ensures
            self.setter_got(entry, value),
    ;
}

/// Which entry points a module exports, found once when it is loaded.
#[derive(Clone, Copy, Debug, PartialEq, Eq, Structural)]
pub struct Capabilities {
    pub filter: bool,
    pub set_beta: bool,
    pub set_deltat: bool,
}

/// One loaded filter module: its path, its native handle and the entry points
/// it was found to export.
pub struct FilterModule<L> {
    path: String,
    native: L,
    caps: Capabilities,
}

impl<L: NativeModule> FilterModule<L> {
    pub closed spec fn spec_path(&self) -> Seq<char> {
        self.path@
    }

    pub closed spec fn spec_caps(&self) -> Capabilities {
        self.caps
    }

    pub closed spec fn spec_native(&self) -> L {
        self.native
    }

    /// A module loaded from `path` whose probes found `caps`.
    pub fn new(path: &String, native: L, caps: Capabilities) -> (r: FilterModule<L>)
        ensures
            r.spec_path() == path@,
            r.spec_caps() == caps,
            r.spec_native() == native,
    {
        FilterModule { path: path.clone(), native, caps }
    }

    /// Opens the module at `path` and probes its entry points once.
    pub fn load(path: &String) -> (r: Result<FilterModule<L>, LoadError>)
        ensures
            r matches Ok(m) ==> m.spec_path() == path@ && m.spec_native().opened_from(path@)
                && m.spec_native().probe_gave(EntryPoint::Filter, m.spec_caps().filter)
                && m.spec_native().probe_gave(EntryPoint::SetBeta, m.spec_caps().set_beta)
                && m.spec_native().probe_gave(EntryPoint::SetDeltat, m.spec_caps().set_deltat),
            r matches Err(e) ==> L::open_failed(path@, e),
    {
        match L::open(path) {
            Ok(native) => {
                let caps = Capabilities {
                    filter: native.probe(EntryPoint::Filter),
                    set_beta: native.probe(EntryPoint::SetBeta),
                    set_deltat: native.probe(EntryPoint::SetDeltat),
                };
                Ok(FilterModule::new(path, native, caps))
            },
            Err(e) => Err(e),
        }
    }

    /// The path the module was loaded from; it identifies the module.
    pub fn path(&self) -> (r: &String)
        ensures
            r@ == self.spec_path(),
    {
        &self.path
    }

    /// The entry points found when the module was loaded.
    pub fn capabilities(&self) -> (r: Capabilities)
        ensures
            r == self.spec_caps(),
    {
        self.caps
    }

    /// Runs the filter step on `measurement`.
    ///
    /// A module without the filter entry point gives `None`; one with it
    /// always gives a complete estimate: what its filter step returned
    /// for the measurement's accelerometer, gyroscope and magnetometer axes.
    pub fn madgwick_filter(&self, measurement: Measurement) -> (r: Option<Quaternion>)
        ensures
            r.is_some() == self.spec_caps().filter,
            r matches Some(q) ==> self.spec_native().filter_gave(
                measurement.acc,
                measurement.gyro,
                measurement.mag,
                q,
            ),
    {
        if self.caps.filter {
            Some(self.native.call_filter(measurement.acc, measurement.gyro, measurement.mag))
        } else {
            None
        }
    }

    /// Hands `beta` to the module's `set_beta`, where it has one.
    ///
    /// Returns whether the setter was called; a module without it is left
    /// untouched, and what its filter step gives does not change.
    pub fn set_beta(&self, beta: u32) -> (r: bool)
        ensures
            r == self.spec_caps().set_beta,
            r ==> self.spec_native().setter_got(EntryPoint::SetBeta, beta),
    {
        if self.caps.set_beta {
            self.native.call_setter(EntryPoint::SetBeta, beta);
            true
        } else {
            false
        }
    }

    /// Hands `deltat` to the module's `set_deltat`, where it has one.
    ///
    /// Returns whether the setter was called; a module without it is left
    /// untouched, and what its filter step gives does not change.
    pub fn set_deltat(&self, deltat: u32) -> (r: bool)
        ensures
            r == self.spec_caps().set_deltat,
            r ==> self.spec_native().setter_got(EntryPoint::SetDeltat, deltat),
    {
        if self.caps.set_deltat {
            self.native.call_setter(EntryPoint::SetDeltat, deltat);
            true
        } else {
            false
        }
    }
}

} // verus!
