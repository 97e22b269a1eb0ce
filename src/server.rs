//! The request surface: a health answer and recipient registration.
use vstd::prelude::*;
use crate::ledger::SyncError;
use crate::models::{SyncBlock, SyncRecordType};
use crate::sync::{new_record, Service, BATCH_THRESHOLD};

verus! {

pub struct Server {
    service: Service,
}

impl Server {
    pub closed spec fn state(&self) -> Service {
        self.service
    }

    pub fn new(service: Service) -> (r: Server)
        ensures
            r.state() == service,
    {
        Server { service }
    }

    pub fn service(&self) -> (r: &Service)
        ensures
            *r == self.state(),
    {
        &self.service
    }

    /// The answer of the health endpoint.
    pub fn health(&self) -> (r: &'static str)
        ensures
            r@ == "OK"@,
    {
        "OK"
    }

    /// Registers an encrypted recipient record: it joins the pending records,
    /// and a block is returned once enough are pending.
    pub fn register_recipient(&mut self, payload: Vec<u8>) -> (r: Result<Option<SyncBlock>, SyncError>)
        requires
            old(self).state().wf(),
        ensures
            final(self).state().wf(),
            old(self).state().pending().len() + 1 < BATCH_THRESHOLD ==> r is Ok && r->Ok_0 is None
                && final(self).state().pending() == old(self).state().pending().push(
                new_record(SyncRecordType::RecipientRegistration, payload@),
            ),
            old(self).state().pending().len() + 1 >= BATCH_THRESHOLD ==> match r {
                Ok(Some(b)) => b@.records == old(self).state().pending().push(
                    new_record(SyncRecordType::RecipientRegistration, payload@),
                ) && final(self).state().pending().len() == 0 && final(self).state().ledger_state().stored()
                    == old(self).state().ledger_state().stored().insert(b.id, b@)
                    && final(self).state().ledger_state().signature_valid_spec(&b),
                Ok(None) => false,
                Err(e) => e == SyncError::IdentifierTaken && old(self).state().ledger_state().stored()
                    != Map::<u128, crate::models::BlockView>::empty() && final(self).state().pending()
                    == old(self).state().pending().push(
                    new_record(SyncRecordType::RecipientRegistration, payload@),
                ),
            },
    {
        self.service.add_record(SyncRecordType::RecipientRegistration, payload)
    }
}

} // verus!
