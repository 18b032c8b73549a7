//! The cancellation registry: one cooperative cancel flag per running scan.

use vstd::prelude::*;
use crate::strmap::StrMap;
use crate::text::owned;

verus! {

/// Cancel flags of the running scans, keyed by scan root.
#[derive(Debug, Clone)]
pub struct CancelRegistry {
    pub flags: StrMap<bool>,
}

/// The error of a cancel request for a root with no running scan.
pub open spec fn no_running_scan_message() -> Seq<char> {
    "No running analysis for this path"@
}

impl View for CancelRegistry {
    type V = Map<Seq<char>, bool>;

    open spec fn view(&self) -> Map<Seq<char>, bool> {
        self.flags@
    }
}

impl CancelRegistry {
    pub open spec fn wf(&self) -> bool {
        self.flags.wf()
    }

    /// A registry with no running scan.
    pub fn new() -> (r: CancelRegistry)
        ensures
            r.wf(),
            r@ == Map::<Seq<char>, bool>::empty(),
    {
        CancelRegistry { flags: StrMap::new() }
    }

    /// Registers a scan of `key` with a fresh, unset flag, replacing any stale one.
    pub fn start_scan(&mut self, key: &str)
        requires
            old(self).wf(),
        ensures
            final(self).wf(),
            final(self)@ == old(self)@.insert(key@, false),
    {
        self.flags.insert(owned(key), false);
    }

    /// Asks the scan of `key` to stop. The flag stays registered, so the scan
    /// still sees the request; without a running scan of `key` this is an error.
    pub fn request_cancel(&mut self, key: &str) -> (r: Result<(), String>)
        requires
            old(self).wf(),
        ensures
            final(self).wf(),
            r is Ok <==> old(self)@.contains_key(key@),
            r is Ok ==> final(self)@ == old(self)@.insert(key@, true),
            r matches Err(e) ==> final(self)@ == old(self)@ && e@ == no_running_scan_message(),
    {
        if self.flags.contains_key(key) {
            self.flags.insert(owned(key), true);
            Ok(())
        } else {
            Err(owned("No running analysis for this path"))
        }
    }

    /// Whether the scan of `key` has been asked to stop.
    pub fn is_cancelled(&self, key: &str) -> (r: bool)
        requires
            self.wf(),
        ensures
            r == (self@.contains_key(key@) && self@[key@]),
    {
        match self.flags.get(key) {
            Some(b) => *b,
            None => false,
        }
    }

    /// Unregisters the scan of `key`, returning whether it had been asked to stop.
    pub fn end_scan(&mut self, key: &str) -> (r: Option<bool>)
        requires
            old(self).wf(),
        ensures
            final(self).wf(),
            final(self)@ == old(self)@.remove(key@),
            r == (if old(self)@.contains_key(key@) { Some(old(self)@[key@]) } else { None::<bool> }),
    {
        self.flags.remove(key)
    }
}

/// Once the scan of `key` has ended (the registry `ended` is what
/// `end_scan(key)` left of `running`), a cancel request for `key` fails with
/// the "no running scan" error and leaves the registry as it was.
pub proof fn cancel_after_end_fails(running: CancelRegistry, ended: CancelRegistry, key: Seq<char>)
    requires
        running.wf(),
        ended@ == running@.remove(key),
    ensures
        !ended@.contains_key(key),
{
}

} // verus!
