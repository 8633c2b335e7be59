//! Iterative resolution from the root (`+trace`): which servers to ask
//! next after each referral. The queries themselves are made by the caller.
use vstd::prelude::*;
use crate::protocol::addr::ipv4_text;
use crate::protocol::message::{DnsMessage, MessageView, records_view};
use crate::protocol::record::{RData, RDataView, ResourceRecordView};
use crate::protocol::types::RecordType;
use crate::text::{chars_eq, chars_of, push_str, string_of, strings_view};
use crate::transport::QueryResult;
use crate::error::DnsError;

verus! {

/// One step of a trace: the server asked and what it answered.
#[derive(Debug)]
pub struct TraceHop {
    pub server: String,
    pub result: QueryResult,
}

/// The root server addresses (a to m), in order.
pub open spec fn root_server_table() -> Seq<Seq<char>> {
    seq![
        "198.41.0.4"@,
        "170.247.170.2"@,
        "192.33.4.12"@,
        "199.7.91.13"@,
        "192.203.230.10"@,
        "192.5.5.241"@,
        "192.112.36.4"@,
        "198.97.190.53"@,
        "192.36.148.17"@,
        "192.58.128.30"@,
        "193.0.14.129"@,
        "199.7.83.42"@,
        "202.12.27.33"@,
    ]
}

/// The root servers a trace starts from.
pub fn root_servers() -> (r: Vec<String>)
    ensures
        strings_view(r@) == root_server_table(),
{
    let mut v: Vec<String> = Vec::new();
    v.push(own("198.41.0.4"));
    v.push(own("170.247.170.2"));
    v.push(own("192.33.4.12"));
    v.push(own("199.7.91.13"));
    v.push(own("192.203.230.10"));
    v.push(own("192.5.5.241"));
    v.push(own("192.112.36.4"));
    v.push(own("198.97.190.53"));
    v.push(own("192.36.148.17"));
    v.push(own("192.58.128.30"));
    v.push(own("193.0.14.129"));
    v.push(own("199.7.83.42"));
    v.push(own("202.12.27.33"));
    assert(strings_view(v@) =~= root_server_table());
    v
}

/// An owned copy of a string slice.
fn own(s: &str) -> (r: String)
    ensures
        r@ == s@,
{
    let mut r = String::new();
    push_str(&mut r, s);
    r
}

/// Whether a response ends the trace: it has answers, or its authority
/// section holds an SOA (a negative answer).
pub open spec fn is_final(m: MessageView) -> bool {
    m.answers.len() > 0 || exists|i: int| 0 <= i < m.authority.len() && (#[trigger] m.authority[i]).rtype
        == RecordType::SOA
}

/// The name server names of a referral: the NS records of the authority
/// section, in order.
pub open spec fn ns_names(rs: Seq<ResourceRecordView>) -> Seq<Seq<char>>
    decreases rs.len(),
{
    if rs.len() == 0 {
        Seq::empty()
    } else {
        let rest = ns_names(rs.drop_last());
        if rs.last().rtype == RecordType::NS {
            match rs.last().rdata {
                RDataView::NS(n) => rest.push(n),
                _ => rest,
            }
        } else {
            rest
        }
    }
}

/// The glue addresses for one name server: the A records of the additional
/// section owned by that name, in order.
pub open spec fn glue_for(name: Seq<char>, rs: Seq<ResourceRecordView>) -> Seq<Seq<char>>
    decreases rs.len(),
{
    if rs.len() == 0 {
        Seq::empty()
    } else {
        let rest = glue_for(name, rs.drop_last());
        if rs.last().name == name {
            match rs.last().rdata {
                RDataView::A(o) => rest.push(ipv4_text(o)),
                _ => rest,
            }
        } else {
            rest
        }
    }
}

/// The glue addresses for all the name servers, server by server.
pub open spec fn glue(names: Seq<Seq<char>>, rs: Seq<ResourceRecordView>) -> Seq<Seq<char>>
    decreases names.len(),
{
    if names.len() == 0 {
        Seq::empty()
    } else {
        glue(names.drop_last(), rs) + glue_for(names.last(), rs)
    }
}

/// What to do after a hop.
#[derive(Debug)]
pub enum TraceStep {
    /// The trace is over.
    Finished,
    /// Ask these servers next.
    Servers(Vec<String>),
    /// No glue came with the referral: find the addresses of this name
    /// server (given without its trailing dots) and ask them next.
    Resolve(String),
}

/// `s` without its trailing dots.
pub open spec fn without_trailing_dots(s: Seq<char>) -> Seq<char>
    decreases s.len(),
{
    if s.len() > 0 && s.last() == '.' {
        without_trailing_dots(s.drop_last())
    } else {
        s
    }
}

/// The step after a hop whose response is `m`: finished on a final answer
/// or a referral without NS records; else the glue addresses when there
/// are any, else resolving the first name server.
pub open spec fn spec_next_step(m: MessageView) -> (Option<Seq<Seq<char>>>, Option<Seq<char>>) {
    if is_final(m) {
        (None, None)
    } else {
        let names = ns_names(m.authority);
        if names.len() == 0 {
            (None, None)
        } else {
            let g = glue(names, m.additional);
            if g.len() > 0 {
                (Some(g), None)
            } else {
                (None, Some(without_trailing_dots(names[0])))
            }
        }
    }
}

/// The view of a step: the servers to ask, or the name to resolve.
pub open spec fn step_view(s: TraceStep) -> (Option<Seq<Seq<char>>>, Option<Seq<char>>) {
    match s {
        TraceStep::Finished => (None, None),
        TraceStep::Servers(v) => (Some(strings_view(v@)), None),
        TraceStep::Resolve(n) => (None, Some(n@)),
    }
}

/// Decides what follows a hop.
pub fn next_trace_step(message: &DnsMessage) -> (r: TraceStep)
    ensures
        step_view(r) == spec_next_step(message@),
{
    let ghost m = message@;
    if message.answers.len() > 0 {
        return TraceStep::Finished;
    }
    let auth = &message.authority;
    let ghost av = records_view(auth@);
    let mut has_soa = false;
    let mut i: usize = 0;
    while i < auth.len()
        invariant
            av == records_view(auth@),
            i <= auth@.len(),
            has_soa == exists|k: int| 0 <= k < i && (#[trigger] av[k]).rtype == RecordType::SOA,
        decreases auth@.len() - i,
    {
        if auth[i].rtype == RecordType::SOA {
            assert(av[i as int].rtype == RecordType::SOA);
            has_soa = true;
        }
        i = i + 1;
    }
    if has_soa {
        return TraceStep::Finished;
    }
    let mut names: Vec<String> = Vec::new();
    let mut j: usize = 0;
    while j < auth.len()
        invariant
            av == records_view(auth@),
            j <= auth@.len(),
            strings_view(names@) == ns_names(av.take(j as int)),
        decreases auth@.len() - j,
    {
        let rr = &auth[j];
        proof {
            assert(av.take(j + 1).drop_last() =~= av.take(j as int));
            assert(av.take(j + 1).last() == rr@);
        }
        if rr.rtype == RecordType::NS {
            match &rr.rdata {
                RData::NS(n) => {
                    let c = n.clone();
                    proof {
                        assert(strings_view(names@.push(c)) =~= strings_view(names@).push(c@));
                    }
                    names.push(c);
                },
                _ => {},
            }
        }
        j = j + 1;
    }
    assert(av.take(j as int) =~= av);
    if names.len() == 0 {
        return TraceStep::Finished;
    }
    let add = &message.additional;
    let ghost dv = records_view(add@);
    let ghost nv = strings_view(names@);
    let mut servers: Vec<String> = Vec::new();
    let mut k: usize = 0;
    while k < names.len()
        invariant
            dv == records_view(add@),
            nv == strings_view(names@),
            k <= names@.len(),
            strings_view(servers@) == glue(nv.take(k as int), dv),
        decreases names@.len() - k,
    {
        let name_chars = chars_of(names[k].as_str());
        proof {
            assert(nv.take(k + 1).drop_last() =~= nv.take(k as int));
            assert(nv.take(k + 1).last() == names@[k as int]@);
        }
        let ghost before = strings_view(servers@);
        let mut q: usize = 0;
        while q < add.len()
            invariant
                dv == records_view(add@),
                q <= add@.len(),
                name_chars@ == nv[k as int],
                strings_view(servers@) == before + glue_for(nv[k as int], dv.take(q as int)),
            decreases add@.len() - q,
        {
            let rr = &add[q];
            proof {
                assert(dv.take(q + 1).drop_last() =~= dv.take(q as int));
                assert(dv.take(q + 1).last() == rr@);
            }
            let owner = chars_of(rr.name.as_str());
            if chars_eq(&owner, &name_chars) {
                match &rr.rdata {
                    RData::A(a) => {
                        let t = a.to_string();
                        proof {
                            assert(strings_view(servers@.push(t)) =~= strings_view(servers@).push(
                                t@,
                            ));
                        }
                        servers.push(t);
                    },
                    _ => {},
                }
            }
            q = q + 1;
        }
        assert(dv.take(q as int) =~= dv);
        k = k + 1;
    }
    assert(nv.take(k as int) =~= nv);
    if servers.len() > 0 {
        return TraceStep::Servers(servers);
    }
    let first = chars_of(names[0].as_str());
    let mut end: usize = first.len();
    assert(first@.take(end as int) =~= first@);
    while end > 0 && first[end - 1] == '.'
        invariant
            end <= first@.len(),
            without_trailing_dots(first@) == without_trailing_dots(first@.take(end as int)),
        decreases end,
    {
        assert(first@.take(end as int).drop_last() =~= first@.take(end - 1));
        end = end - 1;
    }
    let mut b: Vec<char> = Vec::new();
    let mut t: usize = 0;
    while t < end
        invariant
            end <= first@.len(),
            t <= end,
            b@ == first@.take(t as int),
        decreases end - t,
    {
        b.push(first[t]);
        t = t + 1;
        assert(b@ =~= first@.take(t as int));
    }
    assert(without_trailing_dots(first@) == b@) by {
        if end > 0 {
            assert(first@.take(end as int).last() == first@[end - 1]);
        }
    }
    TraceStep::Resolve(string_of(&b))
}

/// The IPv4 addresses among a response's answers, in order.
pub open spec fn answer_addresses(rs: Seq<ResourceRecordView>) -> Seq<Seq<char>>
    decreases rs.len(),
{
    if rs.len() == 0 {
        Seq::empty()
    } else {
        match rs.last().rdata {
            RDataView::A(o) => answer_addresses(rs.drop_last()).push(ipv4_text(o)),
            _ => answer_addresses(rs.drop_last()),
        }
    }
}

/// The IPv4 addresses a name-server lookup returned.
pub fn ns_addresses(message: &DnsMessage) -> (r: Vec<String>)
    ensures
        strings_view(r@) == answer_addresses(message@.answers),
{
    let ans = &message.answers;
    let ghost av = records_view(ans@);
    let mut out: Vec<String> = Vec::new();
    let mut i: usize = 0;
    while i < ans.len()
        invariant
            av == records_view(ans@),
            i <= ans@.len(),
            strings_view(out@) == answer_addresses(av.take(i as int)),
        decreases ans@.len() - i,
    {
        let rr = &ans[i];
        proof {
            assert(av.take(i + 1).drop_last() =~= av.take(i as int));
            assert(av.take(i + 1).last() == rr@);
        }
        match &rr.rdata {
            RData::A(a) => {
                let t = a.to_string();
                proof {
                    assert(strings_view(out@.push(t)) =~= strings_view(out@).push(t@));
                }
                out.push(t);
            },
            _ => {},
        }
        i = i + 1;
    }
    assert(av.take(i as int) =~= av);
    out
}

/// The most hops a trace makes.
pub const TRACE_MAX_HOPS: usize = 20;

/// The message when no server of a hop answers.
pub open spec fn no_server_text() -> Seq<char> {
    "trace: no server responded"@
}

/// What the caller of a trace does next.
#[derive(Debug)]
pub enum TraceAction {
    /// Send the query to this server.
    Ask(String),
    /// Find this name server's addresses through the system resolver.
    Resolve(String),
    /// The trace is over.
    Done,
}

/// Where a trace stands: the servers of the current hop and how many of
/// them failed to answer, the hops made, a name server whose addresses are
/// awaited, and whether the trace is over.
#[derive(Debug)]
pub struct TraceWalk {
    pub servers: Vec<String>,
    pub tried: usize,
    pub hops: usize,
    pub pending: Option<String>,
    pub finished: bool,
}

impl TraceWalk {
    /// A trace about to ask the root servers.
    pub fn start() -> (r: Self)
        ensures
            strings_view(r.servers@) == root_server_table(),
            r.tried == 0,
            r.hops == 0,
            r.pending is None,
            !r.finished,
    {
        TraceWalk { servers: root_servers(), tried: 0, hops: 0, pending: None, finished: false }
    }

    /// The next thing to do: nothing once the trace is over; resolve an
    /// awaited name server; nothing after the last allowed hop; ask the
    /// next server of the hop; and when every one of them failed, a network
    /// error.
    pub fn action(&self) -> (r: Result<TraceAction, DnsError>)
        ensures
            self.finished ==> (r matches Ok(TraceAction::Done)),
            !self.finished && self.pending is Some ==> (r matches Ok(TraceAction::Resolve(n))
                && n@ == self.pending->0@),
            !self.finished && self.pending is None && self.hops >= TRACE_MAX_HOPS ==> (r matches Ok(
                TraceAction::Done,
            )),
            !self.finished && self.pending is None && self.hops < TRACE_MAX_HOPS && self.tried
                < self.servers@.len() ==> (r matches Ok(TraceAction::Ask(a)) && a@
                == self.servers@[self.tried as int]@),
            !self.finished && self.pending is None && self.hops < TRACE_MAX_HOPS && self.tried
                >= self.servers@.len() ==> (r matches Err(DnsError::Network(m)) && m@
                == no_server_text()),
    {
        if self.finished {
            return Ok(TraceAction::Done);
        }
        match &self.pending {
            Some(n) => {
                return Ok(TraceAction::Resolve(n.clone()));
            },
            None => {},
        }
        if self.hops >= TRACE_MAX_HOPS {
            return Ok(TraceAction::Done);
        }
        if self.tried < self.servers.len() {
            return Ok(TraceAction::Ask(self.servers[self.tried].clone()));
        }
        Err(DnsError::Network(own("trace: no server responded")))
    }

    /// The server last asked did not answer: the next one of the hop is
    /// asked.
    pub fn server_failed(&mut self)
        ensures
            final(self).tried == if old(self).tried < old(self).servers@.len() {
                old(self).tried + 1
            } else {
                old(self).tried as int
            },
            final(self).servers@ == old(self).servers@,
            final(self).hops == old(self).hops,
            final(self).pending == old(self).pending,
            final(self).finished == old(self).finished,
    {
        if self.tried < self.servers.len() {
            self.tried = self.tried + 1;
        }
    }

    /// A server answered: that makes one more hop, and `next_trace_step`
    /// decides what follows it: the end, the servers of the next hop, or a
    /// name server to resolve.
    pub fn server_answered(&mut self, message: &DnsMessage)
        requires
            old(self).hops < usize::MAX,
        ensures
            final(self).hops == old(self).hops + 1,
            spec_next_step(message@) matches (None, None) ==> {
                &&& final(self).finished
                &&& final(self).servers@ == old(self).servers@
                &&& final(self).tried == old(self).tried
                &&& final(self).pending == old(self).pending
            },
            spec_next_step(message@) matches (Some(v), _) ==> {
                &&& final(self).finished == old(self).finished
                &&& strings_view(final(self).servers@) == v
                &&& final(self).tried == 0
                &&& final(self).pending == old(self).pending
            },
            spec_next_step(message@) matches (None, Some(n)) ==> {
                &&& final(self).finished == old(self).finished
                &&& final(self).servers@ == old(self).servers@
                &&& final(self).tried == old(self).tried
                &&& (final(self).pending matches Some(p) && p@ == n)
            },
    {
        self.hops = self.hops + 1;
        match next_trace_step(message) {
            TraceStep::Finished => {
                self.finished = true;
            },
            TraceStep::Servers(v) => {
                self.servers = v;
                self.tried = 0;
            },
            TraceStep::Resolve(n) => {
                self.pending = Some(n);
            },
        }
    }

    /// The addresses found for the awaited name server: they are the next
    /// hop's servers; none found (or the lookup failed) ends the trace.
    pub fn resolved(&mut self, addrs: Option<Vec<String>>)
        ensures
            final(self).pending is None,
            final(self).hops == old(self).hops,
            match addrs {
                Some(v) => if v@.len() > 0 {
                    final(self).servers@ == v@ && final(self).tried == 0 && final(self).finished
                        == old(self).finished
                } else {
                    final(self).finished && final(self).servers@ == old(self).servers@
                        && final(self).tried == old(self).tried
                },
                None => final(self).finished && final(self).servers@ == old(self).servers@
                    && final(self).tried == old(self).tried,
            },
    {
        self.pending = None;
        match addrs {
            Some(v) => {
                if v.len() > 0 {
                    self.servers = v;
                    self.tried = 0;
                } else {
                    self.finished = true;
                }
            },
            None => {
                self.finished = true;
            },
        }
    }
}

} // verus!
