use vstd::prelude::*;
use vstd::string::StringExecFns;
use vstd::utf8::decode_utf8;
use vstd::utf8::encode_utf8;
use vstd::utf8::valid_utf8;

use crate::error::DnsError;
use crate::name::encoded_name;
use crate::packet::first_of_type;
use crate::packet::parse_packet;
use crate::packet::DNSPacket;
use crate::packet::PacketView;
use crate::query::build_query;
use crate::query::query_wire;
use crate::record::TYPE_A;
use crate::record::TYPE_NS;
use crate::text::dotted_quad;
use crate::text::ipv4_to_string;

verus! {

/// How many referrals one resolution follows, nested ones included, before it
/// gives up.
pub const MAX_REFERRALS: u32 = 30;

/// The root nameserver that every lookup starts from.
pub open spec fn root_server() -> Seq<char> {
    "198.41.0.4"@
}

/// The root nameserver's address.
fn root_nameserver() -> (r: String)
    ensures
        r@ == root_server(),
{
    String::from_str("198.41.0.4")
}

/// What a response tells the resolver to do next.
#[derive(Debug)]
pub enum Referral {
    /// The address asked for.
    Answer(String),
    /// The address of the nameserver to ask next.
    Glue(String),
    /// The name of the nameserver to ask next, whose address must first be
    /// resolved.
    Delegate(String),
}

/// A referral as plain values.
pub enum ReferralView {
    Answer(Seq<char>),
    Glue(Seq<char>),
    Delegate(Seq<char>),
}

impl View for Referral {
    type V = ReferralView;

    open spec fn view(&self) -> ReferralView {
        match self {
            Referral::Answer(s) => ReferralView::Answer(s@),
            Referral::Glue(s) => ReferralView::Glue(s@),
            Referral::Delegate(s) => ReferralView::Delegate(s@),
        }
    }
}

/// What a response means: the first A answer; else the first A additional
/// (glue); else the first NS authority; else nothing to go on.
pub open spec fn referral_of(p: PacketView) -> Result<ReferralView, DnsError> {
    match first_of_type(p.answers, TYPE_A) {
        Some(d) => if d.len() == 4 {
            Ok(ReferralView::Answer(dotted_quad(d)))
        } else {
            Err(DnsError::MalformedRecordData)
        },
        None => match first_of_type(p.additionals, TYPE_A) {
            Some(d) => if d.len() == 4 {
                Ok(ReferralView::Glue(dotted_quad(d)))
            } else {
                Err(DnsError::MalformedRecordData)
            },
            None => match first_of_type(p.authorities, TYPE_NS) {
                Some(d) => if valid_utf8(d) {
                    Ok(ReferralView::Delegate(decode_utf8(d)))
                } else {
                    Err(DnsError::MalformedRecordData)
                },
                None => Err(DnsError::NoResolutionPath),
            },
        },
    }
}

/// Decides what a parsed response tells the resolver to do next.
pub fn interpret_response(packet: &DNSPacket) -> (r: Result<Referral, DnsError>)
    ensures
        match referral_of(packet@) {
            Ok(h) => r matches Ok(x) && x@ == h,
            Err(e) => r matches Err(x) && x == e,
        },
{
    if let Some(raw_ip) = packet.get_answer() {
        return match ipv4_to_string(raw_ip) {
            Ok(ip) => Ok(Referral::Answer(ip)),
            Err(e) => Err(e),
        };
    }
    if let Some(raw_ns_ip) = packet.get_nameserver_ip() {
        return match ipv4_to_string(raw_ns_ip) {
            Ok(ip) => Ok(Referral::Glue(ip)),
            Err(e) => Err(e),
        };
    }
    match packet.get_nameserver() {
        Ok(Some(name)) => Ok(Referral::Delegate(name)),
        Ok(None) => Err(DnsError::NoResolutionPath),
        Err(e) => Err(e),
    }
}

/// One name being resolved: what is asked, and of which nameserver.
#[derive(Debug)]
pub struct Lookup {
    pub domain: String,
    pub record_type: u16,
    pub nameserver: String,
}

/// A lookup as plain values.
pub struct LookupView {
    pub domain: Seq<char>,
    pub record_type: u16,
    pub nameserver: Seq<char>,
}

impl View for Lookup {
    type V = LookupView;

    open spec fn view(&self) -> LookupView {
        LookupView { domain: self.domain@, record_type: self.record_type, nameserver: self.nameserver@ }
    }
}

/// The plain values of a stack of lookups.
pub open spec fn lookups_view(v: Seq<Lookup>) -> Seq<LookupView> {
    v.map_values(|l: Lookup| l@)
}

/// The lookup `l` asked of `nameserver` instead.
pub open spec fn ask(l: LookupView, nameserver: Seq<char>) -> LookupView {
    LookupView { nameserver, ..l }
}

/// The stack of lookups after a referral, and the final address once the
/// outermost lookup is answered. An answer to a nested lookup is the address
/// of the nameserver that the lookup under it asks next; a delegation without
/// glue starts a nested lookup of the nameserver's address at the root.
pub open spec fn advance(pending: Seq<LookupView>, h: ReferralView) -> (
    Seq<LookupView>,
    Option<Seq<char>>,
) {
    match h {
        ReferralView::Answer(ip) => if pending.len() <= 1 {
            (pending.drop_last(), Some(ip))
        } else {
            let rest = pending.drop_last();
            (rest.update(rest.len() - 1, ask(rest.last(), ip)), None)
        },
        ReferralView::Glue(ip) => (pending.update(pending.len() - 1, ask(pending.last(), ip)), None),
        ReferralView::Delegate(name) => (
            pending.push(LookupView { domain: name, record_type: TYPE_A, nameserver: root_server() }),
            None,
        ),
    }
}

/// A response without an answer but with a glue address redirects the
/// current lookup to that address and starts no nested lookup. One with only
/// a delegation starts exactly one nested lookup: of the nameserver's name,
/// for an address, at the root.
pub proof fn lemma_glue_or_nested_lookup(pending: Seq<LookupView>, p: PacketView)
    requires
        pending.len() > 0,
        first_of_type(p.answers, TYPE_A) is None,
    ensures
        ({
            let glue = first_of_type(p.additionals, TYPE_A);
            glue is Some && glue->Some_0.len() == 4 ==> {
                let (next, done) = advance(pending, referral_of(p)->Ok_0);
                &&& referral_of(p) is Ok
                &&& done is None
                &&& next.len() == pending.len()
                &&& next.last() == ask(pending.last(), dotted_quad(glue->Some_0))
                &&& next.drop_last() == pending.drop_last()
            }
        }),
        ({
            let ns = first_of_type(p.authorities, TYPE_NS);
            first_of_type(p.additionals, TYPE_A) is None && ns is Some && valid_utf8(ns->Some_0)
                ==> {
                let (next, done) = advance(pending, referral_of(p)->Ok_0);
                &&& referral_of(p) is Ok
                &&& done is None
                &&& next == pending.push(
                    LookupView {
                        domain: decode_utf8(ns->Some_0),
                        record_type: TYPE_A,
                        nameserver: root_server(),
                    },
                )
            }
        }),
{
    let glue = first_of_type(p.additionals, TYPE_A);
    if glue is Some && glue->Some_0.len() == 4 {
        let next = advance(pending, referral_of(p)->Ok_0).0;
        assert(next.drop_last() =~= pending.drop_last());
    }
}

/// What the resolver does after a response.
#[derive(Debug)]
pub enum Step {
    /// Send the next query.
    Continue,
    /// The address that the resolution was for.
    Resolved(String),
    /// The resolution failed.
    Failed(DnsError),
}

/// An iterative resolution in progress. The last lookup of `pending` is the
/// one being asked; each one under it waits for the address of its next
/// nameserver.
#[derive(Debug)]
pub struct Resolver {
    pub pending: Vec<Lookup>,
    pub referrals: u32,
}

impl Resolver {
    /// Starts resolving `domain` for `record_type` at the root nameserver.
    pub fn new(domain: &str, record_type: u16) -> (r: Resolver)
        ensures
            lookups_view(r.pending@) == seq![
                LookupView { domain: domain@, record_type, nameserver: root_server() },
            ],
            r.referrals == 0,
    {
        let mut pending: Vec<Lookup> = Vec::new();
        pending.push(
            Lookup { domain: domain.to_owned(), record_type, nameserver: root_nameserver() },
        );
        let r = Resolver { pending, referrals: 0 };
        assert(lookups_view(r.pending@) =~= seq![
            LookupView { domain: domain@, record_type, nameserver: root_server() },
        ]);
        r
    }

    /// The nameserver to ask next and the bytes of the query to send it,
    /// under a random id.
    pub fn next_query(&self) -> (r: Result<(String, Vec<u8>), DnsError>)
        ensures
            self.pending@.len() == 0 ==> r == Err::<(String, Vec<u8>), DnsError>(
                DnsError::NoResolutionPath,
            ),
            self.pending@.len() > 0 ==> {
                let l = self.pending@.last()@;
                match encoded_name(encode_utf8(l.domain)) {
                    Ok(w) => r matches Ok((ns, q)) && ns@ == l.nameserver && exists|id: u16| #[trigger]
                        query_wire(id, w, l.record_type) == q@,
                    Err(e) => r == Err::<(String, Vec<u8>), DnsError>(e),
                }
            },
    {
        let n = self.pending.len();
        if n == 0 {
            return Err(DnsError::NoResolutionPath);
        }
        let l = &self.pending[n - 1];
        match build_query(l.domain.as_str(), l.record_type) {
            Ok(q) => {
                let ns = l.nameserver.clone();
                // Name the id that the query was built with.
                let ghost w = encoded_name(encode_utf8(self.pending@.last()@.domain))->Ok_0;
                let ghost id = choose|id: u16| #[trigger] query_wire(id, w, l.record_type) == q@;
                assert(query_wire(id, w, self.pending@.last()@.record_type) == q@);
                Ok((ns, q))
            },
            Err(e) => Err(e),
        }
    }

    /// Points the innermost lookup at `nameserver`.
    fn redirect(&mut self, nameserver: String)
        requires
            old(self).pending@.len() > 0,
        ensures
            final(self).referrals == old(self).referrals,
            lookups_view(final(self).pending@) == {
                let p = lookups_view(old(self).pending@);
                p.update(p.len() - 1, ask(p.last(), nameserver@))
            },
    {
        let ghost before = lookups_view(self.pending@);
        let top = self.pending.pop();
        match top {
            Some(l) => {
                self.pending.push(
                    Lookup { domain: l.domain, record_type: l.record_type, nameserver },
                );
            },
            None => {},
        }
        assert(lookups_view(self.pending@) =~= before.update(
            before.len() - 1,
            ask(before.last(), nameserver@),
        ));
    }

    /// Takes in the response to the last query and decides what comes next.
    /// A response that does not parse, or that gives nothing to go on, fails
    /// the whole resolution, as does going past the referral limit.
    pub fn on_response(&mut self, response: &[u8]) -> (r: Step)
        ensures
            ({
                let before = lookups_view(old(self).pending@);
                let after = lookups_view(final(self).pending@);
                let unchanged = after == before && final(self).referrals == old(self).referrals;
                if before.len() == 0 {
                    r matches Step::Failed(e) && e == DnsError::NoResolutionPath && unchanged
                } else {
                    match parse_packet(response@) {
                        Err(e) => r matches Step::Failed(x) && x == e && unchanged,
                        Ok(p) => match referral_of(p) {
                            Err(e) => r matches Step::Failed(x) && x == e && unchanged,
                            Ok(h) => match advance(before, h) {
                                (next, Some(ip)) => r matches Step::Resolved(s) && s@ == ip
                                    && after == next,
                                (next, None) => if old(self).referrals >= MAX_REFERRALS {
                                    r matches Step::Failed(e) && e == DnsError::TooManyReferrals
                                        && unchanged
                                } else {
                                    r is Continue && after == next && final(self).referrals
                                        == old(self).referrals + 1
                                },
                            },
                        },
                    }
                }
            }),
    {
        let ghost before = lookups_view(self.pending@);
        if self.pending.len() == 0 {
            return Step::Failed(DnsError::NoResolutionPath);
        }
        let packet = match DNSPacket::parse(response) {
            Ok(p) => p,
            Err(e) => return Step::Failed(e),
        };
        let referral = match interpret_response(&packet) {
            Ok(h) => h,
            Err(e) => return Step::Failed(e),
        };
        let last = self.pending.len() == 1;
        let finished = match referral {
            Referral::Answer(_) => last,
            _ => false,
        };
        if !finished && self.referrals >= MAX_REFERRALS {
            return Step::Failed(DnsError::TooManyReferrals);
        }
        match referral {
            Referral::Answer(ip) => {
                self.pending.pop();
                assert(lookups_view(self.pending@) =~= before.drop_last());
                if last {
                    return Step::Resolved(ip);
                }
                self.redirect(ip);
            },
            Referral::Glue(ip) => {
                self.redirect(ip);
            },
            Referral::Delegate(name) => {
                self.pending.push(
                    Lookup { domain: name, record_type: TYPE_A, nameserver: root_nameserver() },
                );
                assert(lookups_view(self.pending@) =~= before.push(
                    LookupView { domain: name@, record_type: TYPE_A, nameserver: root_server() },
                ));
            },
        }
        self.referrals = self.referrals + 1;
        Step::Continue
    }
}

} // verus!
