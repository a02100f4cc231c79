//! Sending a file with attribution: the sidecar that tells the receiver who
//! sent it, and the history record of the attempt.
use vstd::prelude::*;
use crate::error::{TaildropError, error_text};
use crate::models::{TransferDirection, TransferRecord, TransferStatus};
use crate::platform::{new_id, now_rfc3339};
use crate::store::{SidecarMeta, Store, StoreContents};

verus! {

/// The sidecar announcing `file_name` of `size` bytes from this device,
/// stamped with the current time.
pub fn attribution_sidecar(file_name: &str, size: u64, self_hostname: &str, self_dns_name: &str) -> (r: SidecarMeta)
    ensures
        r.file_name@ == file_name@,
        r.size == size,
        r.sender_hostname@ == self_hostname@,
        r.sender_dns_name@ == self_dns_name@,
{
    SidecarMeta {
        file_name: file_name.to_string(),
        size,
        sender_hostname: self_hostname.to_string(),
        sender_dns_name: self_dns_name.to_string(),
        sent_at: now_rfc3339(),
    }
}

/// Whether the payload is still worth sending after the sidecar's attempt.
/// A receiver not running this tool just gets an extra small file, which is
/// harmless, so any failure is ignored — except a timeout, which means the
/// target is unreachable and the payload would just time out too.
pub fn send_payload_after_sidecar(sidecar_outcome: &Result<(), TaildropError>) -> (r: bool)
    ensures
        r == !(sidecar_outcome matches Err(TaildropError::Timeout(_))),
{
    match sidecar_outcome {
        Err(TaildropError::Timeout(_)) => false,
        _ => true,
    }
}

/// `r` records the attempt to send `file_name` of `size` bytes to `target`,
/// which ended with `outcome`.
pub open spec fn is_sent_record(
    r: TransferRecord,
    target: Seq<char>,
    file_name: Seq<char>,
    size: u64,
    outcome: Result<(), TaildropError>,
    batch_id: Option<Seq<char>>,
) -> bool {
    &&& r.direction == TransferDirection::Sent
    &&& r.peer_hostname@ == target
    &&& r.peer_dns_name is None
    &&& r.file_name@ == file_name
    &&& r.size == size
    &&& r.status == (if outcome is Ok { TransferStatus::Completed } else { TransferStatus::Failed })
    &&& r.saved_path is None
    &&& (outcome is Ok <==> r.error is None)
    &&& match outcome {
        Err(e) => match r.error {
            Some(m) => {
                &&& !(e is Spawn) && !(e is Parse) ==> m@ == error_text(e)
                &&& e is Spawn ==> "failed to launch tailscale CLI: "@.is_prefix_of(m@)
                &&& e is Parse ==> "failed to parse tailscale output: "@.is_prefix_of(m@)
            },
            None => false,
        },
        Ok(_) => true,
    }
    &&& match r.batch_id {
        Some(b) => batch_id == Some(b@),
        None => batch_id is None,
    }
}

impl Store {
    /// Records the attempt to send `file_name` to `target` as the newest
    /// history entry, with a fresh id and the current time, whether it
    /// succeeded or not, so every history view agrees on what happened; then
    /// hands back the record, or the error the attempt ended with.
    pub fn record_sent(
        &mut self,
        target: &str,
        file_name: &str,
        size: u64,
        outcome: Result<(), TaildropError>,
        batch_id: Option<&str>,
    ) -> (r: Result<TransferRecord, TaildropError>)
        ensures
            exists|rec: TransferRecord|
                {
                    &&& is_sent_record(rec, target@, file_name@, size, outcome, match batch_id {
                        Some(b) => Some(b@),
                        None => None,
                    })
                    &&& final(self)@ == old(self)@.recording(rec)
                    &&& (outcome is Ok ==> r == Ok::<TransferRecord, TaildropError>(rec))
                },
            match outcome {
                Err(e) => r == Err::<TransferRecord, TaildropError>(e),
                Ok(_) => true,
            },
    {
        let (status, error) = match &outcome {
            Ok(()) => (TransferStatus::Completed, None),
            Err(e) => (TransferStatus::Failed, Some(e.message())),
        };
        let record = TransferRecord {
            id: new_id(),
            direction: TransferDirection::Sent,
            peer_hostname: target.to_string(),
            peer_dns_name: None,
            file_name: file_name.to_string(),
            size,
            timestamp: now_rfc3339(),
            status,
            saved_path: None,
            error,
            batch_id: match batch_id {
                Some(b) => Some(b.to_string()),
                None => None,
            },
        };
        self.append_history(record.clone());
        match outcome {
            Ok(()) => Ok(record),
            Err(e) => Err(e),
        }
    }
}

} // verus!
