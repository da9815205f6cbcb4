//! Issuing certificates.
use vstd::prelude::*;
use crate::codec;
use crate::engine::model;
use crate::engine::Engine;
use crate::error::EngineError;
use crate::event::{AuditDetail, EventSink, EventView, Reason};
use crate::seam::{Clock, UsbProbe};
use crate::vault::store::Store;

verus! {

impl<S: Store, C: Clock, U: UsbProbe> Engine<S, C, U> {
    /// Issues a leaf certificate for `cn` and `sans`. A leaf for interception is refused, whoever
    /// asks. Other leaves need a local certificate authority, and an engine is never given one.
    pub fn ca_issue(
        &mut self,
        cn: &str,
        _sans: &[String],
        usage: &str,
        sink: &mut EventSink,
    ) -> (result: Result<String, EngineError>)
        ensures
            match result {
                Ok(_) => false,
                Err(EngineError::MitmLeafRefused) => {
                    &&& usage@ == "mitm_leaf"@
                    &&& model::recorded(
                        old(self).state(),
                        old(sink)@,
                        final(self).state(),
                        final(sink)@,
                        model::refused_entry(
                            "ca_issue"@,
                            cn@,
                            AuditDetail::Cause { reason: Reason::MitmLeaf },
                        ),
                        seq![
                            EventView::GuardRefused {
                                subject: cn@,
                                reason: Reason::MitmLeaf.words(),
                            },
                        ],
                    )
                },
                Err(EngineError::NoCertificateAuthority) => {
                    &&& usage@ != "mitm_leaf"@
                    &&& final(self).state() == old(self).state()
                    &&& final(sink)@ == old(sink)@
                },
                Err(e) => {
                    &&& e is Store
                    &&& usage@ == "mitm_leaf"@
                    &&& !(old(self).logs_surely() && model::has_room(old(self).state()))
                    &&& model::unfinished(
                        old(self).state(),
                        old(sink)@,
                        final(self).state(),
                        final(sink)@,
                        model::refused_entry(
                            "ca_issue"@,
                            cn@,
                            AuditDetail::Cause { reason: Reason::MitmLeaf },
                        ),
                    )
                },
            },
            final(self).continues(*old(self)),
    {
        if codec::str_eq(usage, "mitm_leaf") {
            return match self.refuse(sink, "ca_issue", cn, Reason::MitmLeaf) {
                Ok(_) => Err(EngineError::MitmLeafRefused),
                Err(e) => Err(e),
            };
        }
        Err(EngineError::NoCertificateAuthority)
    }
}

} // verus!
