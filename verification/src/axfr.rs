//! Zone transfer (AXFR): collecting the records of the response stream
//! until the closing SOA. Reading the stream is the caller's business.
use vstd::prelude::*;
use crate::error::DnsError;
use crate::protocol::message::{DnsMessage, MessageView, records_view};
use crate::protocol::record::{ResourceRecord, ResourceRecordView};
use crate::protocol::types::{Rcode, RecordType, rcode_text};
use crate::text::{push_str};

verus! {

/// The records of a transfer so far and how many SOA records were seen.
#[derive(Debug)]
pub struct AxfrTransfer {
    pub records: Vec<ResourceRecord>,
    pub soa_count: u64,
}

/// Whether the transfer has seen its closing SOA.
#[derive(Debug, Clone, Copy, PartialEq, Eq, Structural)]
pub enum AxfrProgress {
    More,
    Complete,
}

/// The records and SOA count after taking the answers `ans[i..]` one by
/// one, and whether the second SOA was reached (the answers after it are
/// not taken).
pub open spec fn absorb_from(rs: Seq<ResourceRecordView>, soa: nat, ans: Seq<ResourceRecordView>, i: int) -> (Seq<ResourceRecordView>, nat, bool)
    decreases ans.len() - i,
{
    if i < 0 || i >= ans.len() {
        (rs, soa, false)
    } else {
        let soa2 = if ans[i].rtype == RecordType::SOA { soa + 1 } else { soa };
        let rs2 = rs.push(ans[i]);
        if soa2 >= 2 {
            (rs2, soa2, true)
        } else {
            absorb_from(rs2, soa2, ans, i + 1)
        }
    }
}

/// The message for a transfer refused with a response code.
pub open spec fn axfr_failed_text(r: Rcode) -> Seq<char> {
    "AXFR failed: "@ + rcode_text(r)
}

impl AxfrTransfer {
    /// A transfer that has received nothing yet.
    pub fn new() -> (r: Self)
        ensures
            r.records@.len() == 0,
            r.soa_count == 0,
    {
        AxfrTransfer { records: Vec::new(), soa_count: 0 }
    }

    /// Takes in one message of the transfer: a response code other than
    /// NOERROR fails the transfer; otherwise its answers are collected up to
    /// the second SOA, which completes it. A transfer that has nothing after
    /// a message is an error.
    pub fn absorb(&mut self, message: DnsMessage) -> (r: Result<AxfrProgress, DnsError>)
        requires
            old(self).soa_count < 2,
        ensures
            !(message@.header.rcode is NoError) ==> (r matches Err(DnsError::Protocol(m)) && m@
                == axfr_failed_text(message@.header.rcode)),
            message@.header.rcode is NoError ==> {
                let (rs, soa, done) = absorb_from(
                    records_view(old(self).records@),
                    old(self).soa_count as nat,
                    message@.answers,
                    0,
                );
                &&& records_view(final(self).records@) == rs
                &&& final(self).soa_count == soa
                &&& (done ==> r == Ok::<AxfrProgress, DnsError>(AxfrProgress::Complete))
                &&& (!done && rs.len() == 0 && soa == 0 ==> (r matches Err(DnsError::Protocol(m))
                    && m@ == "AXFR: empty response"@))
                &&& (!done && !(rs.len() == 0 && soa == 0) ==> r == Ok::<AxfrProgress, DnsError>(
                    AxfrProgress::More,
                ))
            },
    {
        if message.header.rcode != Rcode::NoError {
            let mut m = String::new();
            push_str(&mut m, "AXFR failed: ");
            let t = message.header.rcode.to_string();
            push_str(&mut m, t.as_str());
            return Err(DnsError::Protocol(m));
        }
        let ghost ans = message@.answers;
        let ghost start = (records_view(self.records@), self.soa_count as nat);
        let mut rest = message.answers;
        let ghost mut i: int = 0;
        assert(rest@.len() == ans.len());
        while rest.len() > 0
            invariant
                0 <= i <= ans.len(),
                ans == message@.answers,
                message@.header.rcode is NoError,
                start == (records_view(old(self).records@), old(self).soa_count as nat),
                records_view(rest@) == ans.skip(i),
                self.soa_count < 2,
                absorb_from(start.0, start.1, ans, 0) == absorb_from(
                    records_view(self.records@),
                    self.soa_count as nat,
                    ans,
                    i,
                ),
            decreases rest.len(),
        {
            let ghost before = rest@;
            let rr = rest.remove(0);
            proof {
                assert(records_view(rest@) =~= records_view(before).skip(1));
                assert(ans.skip(i).skip(1) =~= ans.skip(i + 1));
                assert(records_view(before)[0] == rr@);
                assert(ans[i] == ans.skip(i)[0]);
            }
            if rr.rtype == RecordType::SOA {
                self.soa_count = self.soa_count + 1;
            }
            let ghost rv = rr@;
            proof {
                assert(records_view(self.records@.push(rr)) =~= records_view(self.records@).push(rv));
            }
            self.records.push(rr);
            if self.soa_count >= 2 {
                return Ok(AxfrProgress::Complete);
            }
            proof {
                i = i + 1;
            }
        }
        assert(i == ans.len());
        if self.records.len() == 0 && self.soa_count == 0 {
            let mut m = String::new();
            push_str(&mut m, "AXFR: empty response");
            return Err(DnsError::Protocol(m));
        }
        Ok(AxfrProgress::More)
    }
}

} // verus!
