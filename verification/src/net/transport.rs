//! Addresses at which a peer may be reached, and which of them are kept.
use vstd::prelude::*;

use crate::bytes::has_prefix;
use crate::net::error::Error;
use crate::text::{same_text, strip_prefix};

verus! {

/// A relay that an address names, and the scheme of its URL.
#[derive(Debug, PartialEq, Eq)]
pub struct RelayHint {
    pub url: String,
    pub scheme: String,
}

/// What an endpoint address names.
#[derive(Debug, PartialEq, Eq)]
pub struct EndpointHints {
    pub id: [u8; 32],
    pub relays: Vec<RelayHint>,
    /// Direct network addresses.
    pub direct: Vec<String>,
}

/// What an endpoint address names.
pub struct EndpointV {
    pub id: Seq<u8>,
    /// URL and scheme of each relay.
    pub relays: Seq<(Seq<char>, Seq<char>)>,
    pub direct: Seq<Seq<char>>,
}

impl View for EndpointHints {
    type V = EndpointV;

    open spec fn view(&self) -> EndpointV {
        EndpointV {
            id: self.id@,
            relays: Seq::new(
                self.relays@.len(),
                |i: int| (self.relays@[i].url@, self.relays@[i].scheme@),
            ),
            direct: Seq::new(self.direct@.len(), |i: int| self.direct@[i]@),
        }
    }
}

/// What `iroh` reads from the JSON text of an endpoint address; nothing where it refuses it.
pub uninterp spec fn endpoint_of(text: Seq<char>) -> Option<EndpointV>;

/// The JSON text of an endpoint address with the addresses of another joined to it.
pub uninterp spec fn endpoints_joined(known: Seq<char>, observed: Seq<char>) -> Option<Seq<char>>;

/// The URL and the scheme that `iroh` reads from the text of a relay URL.
pub uninterp spec fn relay_of(text: Seq<char>) -> Option<(Seq<char>, Seq<char>)>;

/// Whether a relay is one of those that `iroh` knows by default.
pub uninterp spec fn is_default_relay(url: Seq<char>) -> bool;

/// `serde_json::from_str` into an `iroh::EndpointAddr`: its id, its relays with their schemes, and
/// its direct addresses, as a function of the text.
#[verifier::external_body]
fn read_endpoint(text: &str) -> (r: Option<EndpointHints>)
    ensures
        r is Some <==> endpoint_of(text@) is Some,
        r matches Some(e) ==> endpoint_of(text@) == Some(e@),
{
    serde_json::from_str::<iroh::EndpointAddr>(text).ok().map(|a| EndpointHints {
        id: *a.id.as_bytes(),
        relays: a.relay_urls().map(|u| RelayHint {
            url: u.to_string(),
            scheme: u.scheme().to_string(),
        }).collect(),
        direct: a.ip_addrs().map(|ip| ip.to_string()).collect(),
    })
}

/// An address holds exactly what two others hold, under the id of the first.
pub open spec fn joins(j: EndpointV, a: EndpointV, b: EndpointV) -> bool {
    &&& j.id == a.id
    &&& forall|x: (Seq<char>, Seq<char>)| #[trigger]
        j.relays.contains(x) <==> a.relays.contains(x) || b.relays.contains(x)
    &&& forall|x: Seq<char>| #[trigger]
        j.direct.contains(x) <==> a.direct.contains(x) || b.direct.contains(x)
}

/// A text is read as what two addresses hold together, where all their relays are reached over
/// https.
pub open spec fn reads_joined(known: Seq<char>, observed: Seq<char>, text: Seq<char>) -> bool {
    match (endpoint_of(known), endpoint_of(observed)) {
        (Some(a), Some(b)) => relays_secure(a) && relays_secure(b) ==> (endpoint_of(text) matches Some(
            j,
        ) && joins(j, a, b)),
        _ => true,
    }
}

/// `Extend::extend` on the addresses of an `iroh::EndpointAddr`, which are a set, and the JSON text
/// of what comes out; nothing where either text is not such an address. Where all relays are reached
/// over https, that text is read as an address with the id of the first and the relays and direct
/// addresses of both.
#[verifier::external_body]
fn join_endpoints(known: &str, observed: &str) -> (r: Option<String>)
    ensures
        r is Some <==> endpoints_joined(known@, observed@) is Some,
        r is Some <==> (endpoint_of(known@) is Some && endpoint_of(observed@) is Some),
        r matches Some(t) ==> endpoints_joined(known@, observed@) == Some(t@),
        r matches Some(t) ==> reads_joined(known@, observed@, t@),
{
    let mut a: iroh::EndpointAddr = serde_json::from_str(known).ok()?;
    let b: iroh::EndpointAddr = serde_json::from_str(observed).ok()?;
    a.addrs.extend(b.addrs);
    serde_json::to_string(&a).ok()
}

/// `iroh::RelayUrl::from_str`: the normal form of the URL and its scheme, as a function of the
/// text.
#[verifier::external_body]
fn read_relay(text: &str) -> (r: Option<RelayHint>)
    ensures
        r is Some <==> relay_of(text@) is Some,
        r matches Some(u) ==> relay_of(text@) == Some((u.url@, u.scheme@)),
{
    text.parse::<iroh::RelayUrl>().ok().map(|u| RelayHint {
        url: u.to_string(),
        scheme: u.scheme().to_string(),
    })
}

/// `RelayMap::contains` on `iroh::defaults::prod::default_relay_map`: a fixed set of URLs.
#[verifier::external_body]
fn default_relay(url: &str) -> (r: bool)
    ensures
        r == is_default_relay(url@),
{
    match url.parse::<iroh::RelayUrl>() {
        Ok(u) => iroh::defaults::prod::default_relay_map().contains(&u),
        Err(_) => false,
    }
}

/// Which relays this device uses.
#[derive(Debug, PartialEq, Eq)]
pub enum IrohRelayMode {
    N0,
    /// No relay at all.
    Off,
    Custom(String),
}

impl Default for IrohRelayMode {
    fn default() -> (r: Self)
        ensures
            r is N0,
    {
        IrohRelayMode::N0
    }
}

impl IrohRelayMode {
    /// The mode as text.
    pub fn label(&self) -> (r: String)
        ensures
            r@ == match *self {
                IrohRelayMode::N0 => "n0"@,
                IrohRelayMode::Off => "none"@,
                IrohRelayMode::Custom(url) => url@,
            },
    {
        match self {
            IrohRelayMode::N0 => "n0".to_owned(),
            IrohRelayMode::Off => "none".to_owned(),
            IrohRelayMode::Custom(url) => url.clone(),
        }
    }

    /// Accepts a custom relay that was read from a URL.
    pub fn custom(read: Option<RelayHint>) -> (r: Result<Self, Error>)
        ensures
            r matches Ok(m) ==> read is Some && read->0.scheme@ == "https"@ && m
                == IrohRelayMode::Custom(read->0.url),
            r matches Err(e) ==> if read is None {
                e == Error::Transport("invalid iroh relay URL")
            } else {
                read->0.scheme@ != "https"@ && e == Error::Transport(
                    "custom iroh relay URL must use https",
                )
            },
    {
        match read {
            None => Err(Error::Transport("invalid iroh relay URL")),
            Some(u) => {
                if !same_text(u.scheme.as_str(), "https") {
                    return Err(Error::Transport("custom iroh relay URL must use https"));
                }
                Ok(IrohRelayMode::Custom(u.url))
            },
        }
    }

    /// Reads a mode: `n0`, `none`, or the URL of a relay.
    pub fn parse(value: &str) -> (r: Result<Self, Error>)
        ensures
            r matches Ok(m) ==> match m {
                IrohRelayMode::N0 => value@ == "n0"@,
                IrohRelayMode::Off => value@ == "none"@,
                IrohRelayMode::Custom(url) => value@ != "n0"@ && value@ != "none"@ && relay_of(
                    value@,
                ) == Some((url@, "https"@)),
            },
            value@ == "n0"@ || value@ == "none"@ ==> r is Ok,
            r matches Err(e) ==> match relay_of(value@) {
                None => e == Error::Transport("invalid iroh relay URL"),
                Some(u) => u.1 != "https"@ && e == Error::Transport(
                    "custom iroh relay URL must use https",
                ),
            },
    {
        if same_text(value, "n0") {
            Ok(IrohRelayMode::N0)
        } else if same_text(value, "none") {
            Ok(IrohRelayMode::Off)
        } else {
            IrohRelayMode::custom(read_relay(value))
        }
    }
}

/// Every relay is reached over https.
pub open spec fn relays_secure(e: EndpointV) -> bool {
    forall|i: int| 0 <= i < e.relays.len() ==> (#[trigger] e.relays[i]).1 == "https"@
}

/// What `parse_iroh_address` answers.
pub open spec fn address_check(text: Seq<char>) -> Result<EndpointV, Error> {
    match endpoint_of(text) {
        None => Err(Error::Transport("invalid iroh address")),
        Some(e) => if relays_secure(e) {
            Ok(e)
        } else {
            Err(Error::Transport("iroh relay URL must use https"))
        },
    }
}

/// Accepts an endpoint address whose relays are all reached over https.
pub fn secure_endpoint(read: Option<EndpointHints>) -> (r: Result<EndpointHints, Error>)
    ensures
        r matches Ok(e) ==> read == Some(e) && relays_secure(e@),
        r matches Err(e) ==> if read is None {
            e == Error::Transport("invalid iroh address")
        } else {
            !relays_secure(read->0@) && e == Error::Transport("iroh relay URL must use https")
        },
{
    let e = match read {
        None => {
            return Err(Error::Transport("invalid iroh address"));
        },
        Some(e) => e,
    };
    let mut i: usize = 0;
    while i < e.relays.len()
        invariant
            i <= e.relays@.len(),
            read == Some(e),
            forall|j: int| 0 <= j < i ==> (#[trigger] e@.relays[j]).1 == "https"@,
        decreases e.relays.len() - i,
    {
        if !same_text(e.relays[i].scheme.as_str(), "https") {
            assert(e@.relays[i as int].1 != "https"@);
            return Err(Error::Transport("iroh relay URL must use https"));
        }
        i += 1;
    }
    Ok(e)
}

/// Reads an endpoint address.
pub fn parse_iroh_address(address: &str) -> (r: Result<EndpointHints, Error>)
    ensures
        r matches Ok(e) ==> address_check(address@) == Ok::<EndpointV, Error>(e@),
        r matches Err(e) ==> address_check(address@) == Err::<EndpointV, Error>(e),
{
    secure_endpoint(read_endpoint(address))
}

/// An endpoint can be dialed where it names a relay or a direct address.
pub fn iroh_address_is_dialable(e: &EndpointHints) -> (r: bool)
    ensures
        r == (e@.relays.len() > 0 || e@.direct.len() > 0),
{
    e.relays.len() > 0 || e.direct.len() > 0
}

/// Decides while this device has no address yet at which it can be dialed: it is ready, waits a
/// moment longer, or gives up once the time is over.
pub fn address_step(dialable: bool, past_deadline: bool) -> (r: Result<bool, Error>)
    ensures
        r == if dialable {
            Ok::<bool, Error>(true)
        } else if past_deadline {
            Err(Error::Transport("iroh endpoint has no direct or relay address after 3 seconds"))
        } else {
            Ok(false)
        },
{
    if dialable {
        Ok(true)
    } else if past_deadline {
        Err(Error::Transport("iroh endpoint has no direct or relay address after 3 seconds"))
    } else {
        Ok(false)
    }
}

/// The relay is one that the mode uses.
pub open spec fn relay_allowed(url: Seq<char>, mode: IrohRelayMode) -> bool {
    match mode {
        IrohRelayMode::Off => false,
        IrohRelayMode::N0 => is_default_relay(url),
        IrohRelayMode::Custom(expected) => url == expected@,
    }
}

/// Accepts an address that names no relay outside the mode.
pub fn validate_iroh_relay_policy(e: &EndpointHints, mode: &IrohRelayMode) -> (r: Result<(), Error>)
    ensures
        r == if forall|i: int|
            0 <= i < e@.relays.len() ==> relay_allowed((#[trigger] e@.relays[i]).0, *mode) {
            Ok::<(), Error>(())
        } else {
            Err(Error::Transport("peer address uses a relay outside the configured policy"))
        },
{
    let mut i: usize = 0;
    while i < e.relays.len()
        invariant
            i <= e.relays@.len(),
            forall|j: int| 0 <= j < i ==> relay_allowed((#[trigger] e@.relays[j]).0, *mode),
        decreases e.relays.len() - i,
    {
        let url = e.relays[i].url.as_str();
        let ok = match mode {
            IrohRelayMode::Off => false,
            IrohRelayMode::N0 => default_relay(url),
            IrohRelayMode::Custom(expected) => same_text(url, expected.as_str()),
        };
        if !ok {
            assert(!relay_allowed(e@.relays[i as int].0, *mode));
            return Err(Error::Transport("peer address uses a relay outside the configured policy"));
        }
        i += 1;
    }
    Ok(())
}

/// An address begins as those of the TCP transport do.
pub open spec fn is_tcp(text: Seq<char>) -> bool {
    has_prefix(text, "tcp://"@)
}

/// The address names a direct network address.
pub open spec fn has_direct(text: Seq<char>) -> bool {
    is_tcp(text) || match address_check(text) {
        Ok(e) => e.direct.len() > 0,
        Err(_) => false,
    }
}

/// Whether a kept address names a direct network address.
pub fn peer_address_has_direct_hint(address: &str) -> (r: bool)
    ensures
        r == has_direct(address@),
{
    if strip_prefix(address, "tcp://").is_some() {
        return true;
    }
    match parse_iroh_address(address) {
        Ok(e) => e.direct.len() > 0,
        Err(_) => false,
    }
}

/// Whether a kept address names a relay.
pub fn peer_address_has_relay_hint(address: &str) -> (r: bool)
    ensures
        r == match address_check(address@) {
            Ok(e) => e.relays.len() > 0,
            Err(_) => false,
        },
{
    match parse_iroh_address(address) {
        Ok(e) => e.relays.len() > 0,
        Err(_) => false,
    }
}

/// What `merge_peer_address_hints` answers: both are addresses of one endpoint.
pub open spec fn merged_hint(known: Seq<char>, observed: Seq<char>) -> Option<Seq<char>> {
    match (address_check(known), address_check(observed)) {
        (Ok(a), Ok(b)) => if a.id == b.id {
            endpoints_joined(known, observed)
        } else {
            None
        },
        _ => None,
    }
}

/// Something that an endpoint address names: a relay, by URL and scheme, or a direct address.
pub enum Place {
    Relay(Seq<char>, Seq<char>),
    Direct(Seq<char>),
}

/// The address is one of the endpoint and names the place.
pub open spec fn names_place(text: Seq<char>, id: Seq<u8>, place: Place) -> bool {
    address_check(text) matches Ok(e) && e.id == id && match place {
        Place::Relay(url, scheme) => e.relays.contains((url, scheme)),
        Place::Direct(ip) => e.direct.contains(ip),
    }
}

/// Some address among these is one of the endpoint and names the place.
pub open spec fn listed(known: Seq<Seq<char>>, id: Seq<u8>, place: Place) -> bool {
    exists|i: int| 0 <= i < known.len() && names_place(#[trigger] known[i], id, place)
}

/// What addresses say.
pub open spec fn hint_texts(hints: Seq<DialHint>) -> Seq<Seq<char>> {
    Seq::new(hints.len(), |i: int| hints[i].text@)
}

/// The places that addresses name, for each endpoint, are those that were known and those that were
/// observed.
pub open spec fn nothing_lost(
    known: Seq<Seq<char>>,
    observed: Seq<Seq<char>>,
    after: Seq<Seq<char>>,
) -> bool {
    forall|id: Seq<u8>, place: Place| #[trigger]
        listed(after, id, place) <==> listed(known, id, place) || listed(observed, id, place)
}

/// Joins two addresses of one endpoint. What comes out is an address of that endpoint which names
/// every place that either names, and no other.
pub fn merge_peer_address_hints(existing: &str, observed: &str) -> (r: Option<String>)
    ensures
        r is Some <==> merged_hint(existing@, observed@) is Some,
        r is Some <==> (address_check(existing@) matches Ok(a) && address_check(observed@) matches Ok(
            b,
        ) && a.id == b.id),
        r matches Some(t) ==> merged_hint(existing@, observed@) == Some(t@),
        r matches Some(t) ==> (address_check(t@) matches Ok(j) && joins(
            j,
            address_check(existing@)->Ok_0,
            address_check(observed@)->Ok_0,
        )),
{
    match (parse_iroh_address(existing), parse_iroh_address(observed)) {
        (Ok(a), Ok(b)) => {
            if crate::bytes::same_bytes(a.id.as_slice(), b.id.as_slice()) {
                let joined = join_endpoints(existing, observed);
                proof {
                    if joined is Some {
                        let j = endpoint_of((joined->0)@)->0;
                        assert forall|i: int| 0 <= i < j.relays.len() implies (#[trigger] j.relays[i]).1
                            == "https"@ by {
                            assert(j.relays.contains(j.relays[i]));
                            let x = j.relays[i];
                            if a@.relays.contains(x) {
                                let k = choose|k: int| 0 <= k < a@.relays.len() && a@.relays[k] == x;
                                assert(a@.relays[k].1 == "https"@);
                            } else {
                                let k = choose|k: int| 0 <= k < b@.relays.len() && b@.relays[k] == x;
                                assert(b@.relays[k].1 == "https"@);
                            }
                        }
                    }
                }
                joined
            } else {
                None
            }
        },
        _ => None,
    }
}

/// An address as a peer gives it, and whether the part after `tcp://` is a socket address.
pub struct DialHint {
    pub text: String,
    pub socket: bool,
}

/// What `validate_peer_address` answers.
pub open spec fn hint_check(text: Seq<char>, socket: bool) -> Result<(), Error> {
    if is_tcp(text) {
        if socket {
            Ok(())
        } else {
            Err(Error::Transport("invalid TCP dial address"))
        }
    } else {
        match address_check(text) {
            Ok(_) => Ok(()),
            Err(e) => Err(e),
        }
    }
}

/// Accepts an address that a transport could dial.
pub fn validate_peer_address(hint: &DialHint) -> (r: Result<(), Error>)
    ensures
        r == hint_check(hint.text@, hint.socket),
{
    if strip_prefix(hint.text.as_str(), "tcp://").is_some() {
        if hint.socket {
            return Ok(());
        }
        return Err(Error::Transport("invalid TCP dial address"));
    }
    match parse_iroh_address(hint.text.as_str()) {
        Ok(_) => Ok(()),
        Err(e) => Err(e),
    }
}

/// What texts say.
pub open spec fn texts(s: Seq<String>) -> Seq<Seq<char>> {
    Seq::new(s.len(), |i: int| s[i]@)
}

/// The first known address that an observed one can be joined to, from `i` on.
pub open spec fn join_at(known: Seq<Seq<char>>, observed: Seq<char>, i: int) -> int
    decreases known.len() - i,
{
    if i < 0 || i >= known.len() {
        known.len() as int
    } else if merged_hint(known[i], observed) is Some {
        i
    } else {
        join_at(known, observed, i + 1)
    }
}

/// The known addresses once one more was observed: joined to the first of the same endpoint, or
/// added where it is new.
pub open spec fn with_hint(known: Seq<Seq<char>>, observed: Seq<char>) -> Seq<Seq<char>> {
    let i = join_at(known, observed, 0);
    if i < known.len() {
        known.update(i, merged_hint(known[i], observed)->0)
    } else if known.contains(observed) {
        known
    } else {
        known.push(observed)
    }
}

/// The known addresses once some more were observed.
pub open spec fn with_hints(known: Seq<Seq<char>>, hints: Seq<DialHint>) -> Seq<Seq<char>>
    decreases hints.len(),
{
    if hints.len() == 0 {
        known
    } else {
        with_hint(with_hints(known, hints.drop_last()), hints.last().text@)
    }
}

/// Direct addresses first, each group in the order it had, and no more than eight.
pub open spec fn best_hints(known: Seq<Seq<char>>) -> Seq<Seq<char>> {
    let all = known.filter(|t: Seq<char>| has_direct(t)) + known.filter(
        |t: Seq<char>| !has_direct(t),
    );
    if all.len() > 8 {
        all.take(8)
    } else {
        all
    }
}

/// No more than eight addresses are kept. Each of them is one of those that are known, and none with a
/// direct network address stands behind one without. None with a direct address is dropped while one
/// without is kept.
pub proof fn direct_addresses_come_first(known: Seq<Seq<char>>)
    ensures
        best_hints(known).len() <= 8,
        best_hints(known).len() == known.len() || best_hints(known).len() == 8,
        forall|i: int| 0 <= i < best_hints(known).len() ==> known.contains(
            #[trigger] best_hints(known)[i],
        ),
        forall|i: int, j: int|
            0 <= i < j < best_hints(known).len() && has_direct(#[trigger] best_hints(known)[j])
                ==> has_direct(#[trigger] best_hints(known)[i]),
        forall|t: Seq<char>, j: int|
            known.contains(t) && has_direct(t) && 0 <= j < best_hints(known).len() && !has_direct(
                #[trigger] best_hints(known)[j],
            ) ==> #[trigger] best_hints(known).contains(t),
{
    let p = |t: Seq<char>| has_direct(t);
    let q = |t: Seq<char>| !has_direct(t);
    filters_split(known, p, q);
    let (a, b) = (known.filter(p), known.filter(q));
    let all = a + b;
    let best = best_hints(known);
    assert forall|i: int| 0 <= i < a.len() implies has_direct(#[trigger] a[i]) && known.contains(
        a[i],
    ) by {
        known.lemma_filter_pred(p, i);
        assert(a.contains(a[i]));
    }
    assert forall|i: int| 0 <= i < b.len() implies !has_direct(#[trigger] b[i]) && known.contains(
        b[i],
    ) by {
        known.lemma_filter_pred(q, i);
        assert(b.contains(b[i]));
    }
    assert forall|i: int| 0 <= i < best.len() implies known.contains(#[trigger] best[i]) && (
    has_direct(best[i]) <==> i < a.len()) by {
        assert(best[i] == all[i]);
        if i < a.len() {
            assert(all[i] == a[i]);
        } else {
            assert(all[i] == b[i - a.len()]);
        }
    }
    assert forall|t: Seq<char>, j: int|
        known.contains(t) && has_direct(t) && 0 <= j < best.len() && !has_direct(
            #[trigger] best[j],
        ) implies #[trigger] best.contains(t) by {
        assert(j >= a.len());
        assert(a.contains(t)) by {
            if b.contains(t) {
                let k = choose|k: int| 0 <= k < b.len() && b[k] == t;
                assert(!has_direct(b[k]));
            }
        }
        let k = choose|k: int| 0 <= k < a.len() && a[k] == t;
        assert(best[k] == all[k]);
    }
}

/// Which relays an address may name: none where relays are off, the one that is set, or those that are
/// known by default.
pub proof fn relays_are_chosen(url: Seq<char>, mode: IrohRelayMode)
    ensures
        mode is Off ==> !relay_allowed(url, mode),
        mode matches IrohRelayMode::Custom(expected) ==> (relay_allowed(url, mode) <==> url
            == expected@),
        mode is N0 ==> (relay_allowed(url, mode) <==> is_default_relay(url)),
{
}

/// An address is taken exactly where it can be read and names no relay that is reached in the open.
pub proof fn relays_are_reached_in_secret(text: Seq<char>)
    ensures
        address_check(text) is Ok <==> endpoint_of(text) is Some && forall|i: int|
            0 <= i < (endpoint_of(text)->0).relays.len() ==> (#[trigger] (endpoint_of(
                text,
            )->0).relays[i]).1 == "https"@,
        address_check(text) matches Ok(e) ==> endpoint_of(text) == Some(e),
{
}

/// The first fault among addresses.
pub open spec fn hints_fault(hints: Seq<DialHint>) -> Option<Error>
    decreases hints.len(),
{
    if hints.len() == 0 {
        None
    } else {
        match hints_fault(hints.drop_last()) {
            Some(e) => Some(e),
            None => match hint_check(hints.last().text@, hints.last().socket) {
                Err(e) => Some(e),
                Ok(()) => None,
            },
        }
    }
}

/// The fault of the first hints is the fault of all.
pub proof fn hints_fault_prefix(hints: Seq<DialHint>, n: int)
    requires
        0 <= n <= hints.len(),
        hints_fault(hints.take(n)) is Some,
    ensures
        hints_fault(hints) == hints_fault(hints.take(n)),
    decreases hints.len(),
{
    if n == hints.len() {
        assert(hints.take(n) =~= hints);
    } else {
        let p = hints.drop_last();
        assert(p.take(n) =~= hints.take(n));
        hints_fault_prefix(p, n);
    }
}

proof fn join_at_is_first(known: Seq<Seq<char>>, observed: Seq<char>, i: int, k: int)
    requires
        0 <= i <= k <= known.len(),
        forall|j: int| i <= j < k ==> merged_hint(#[trigger] known[j], observed) is None,
        k < known.len() ==> merged_hint(known[k], observed) is Some,
    ensures
        join_at(known, observed, i) == k,
    decreases k - i,
{
    if i < k {
        join_at_is_first(known, observed, i + 1, k);
    }
}

/// Replacing one address by one that names the places of both loses nothing.
proof fn joining_loses_nothing(known: Seq<Seq<char>>, i: int, observed: Seq<char>, joined: Seq<char>)
    requires
        0 <= i < known.len(),
        address_check(known[i]) is Ok,
        address_check(observed) is Ok,
        address_check(known[i])->Ok_0.id == address_check(observed)->Ok_0.id,
        address_check(joined) is Ok,
        joins(
            address_check(joined)->Ok_0,
            address_check(known[i])->Ok_0,
            address_check(observed)->Ok_0,
        ),
    ensures
        nothing_lost(known, seq![observed], known.update(i, joined)),
{
    let after = known.update(i, joined);
    let new = seq![observed];
    assert forall|id: Seq<u8>, place: Place| #[trigger] listed(after, id, place) <==> listed(
        known,
        id,
        place,
    ) || listed(new, id, place) by {
        if listed(after, id, place) {
            let k = choose|k: int| 0 <= k < after.len() && names_place(#[trigger] after[k], id, place);
            if k == i {
                assert(names_place(known[i], id, place) || names_place(new[0], id, place));
            } else {
                assert(names_place(known[k], id, place));
            }
        }
        if listed(known, id, place) {
            let k = choose|k: int| 0 <= k < known.len() && names_place(#[trigger] known[k], id, place);
            assert(names_place(after[k], id, place));
        }
        if listed(new, id, place) {
            assert(names_place(new[0], id, place));
            assert(names_place(after[i], id, place));
        }
    }
}

proof fn adding_loses_nothing(known: Seq<Seq<char>>, observed: Seq<char>)
    ensures
        nothing_lost(known, seq![observed], known.push(observed)),
        known.contains(observed) ==> nothing_lost(known, seq![observed], known),
{
    let after = known.push(observed);
    let new = seq![observed];
    assert forall|id: Seq<u8>, place: Place|
        (#[trigger] listed(after, id, place) <==> listed(known, id, place) || listed(new, id, place))
            by {
        if listed(after, id, place) {
            let k = choose|k: int| 0 <= k < after.len() && names_place(#[trigger] after[k], id, place);
            if k < known.len() {
                assert(names_place(known[k], id, place));
            } else {
                assert(names_place(new[0], id, place));
            }
        }
        if listed(known, id, place) {
            let k = choose|k: int| 0 <= k < known.len() && names_place(#[trigger] known[k], id, place);
            assert(names_place(after[k], id, place));
        }
        if listed(new, id, place) {
            assert(names_place(new[0], id, place));
            assert(names_place(after[known.len() as int], id, place));
        }
    }
    if known.contains(observed) {
        let j = choose|j: int| 0 <= j < known.len() && known[j] == observed;
        assert forall|id: Seq<u8>, place: Place| #[trigger] listed(known, id, place) <==> listed(
            known,
            id,
            place,
        ) || listed(new, id, place) by {
            if listed(new, id, place) {
                assert(names_place(new[0], id, place));
                assert(names_place(known[j], id, place));
            }
        }
    }
}

/// Observing some addresses and then one more is observing them all.
proof fn losing_nothing_adds_up(
    known: Seq<Seq<char>>,
    some: Seq<Seq<char>>,
    between: Seq<Seq<char>>,
    one: Seq<char>,
    after: Seq<Seq<char>>,
)
    requires
        nothing_lost(known, some, between),
        nothing_lost(between, seq![one], after),
    ensures
        nothing_lost(known, some.push(one), after),
{
    let all = some.push(one);
    let new = seq![one];
    assert forall|id: Seq<u8>, place: Place| #[trigger] listed(after, id, place) <==> listed(
        known,
        id,
        place,
    ) || listed(all, id, place) by {
        assert(listed(between, id, place) <==> listed(known, id, place) || listed(some, id, place));
        if listed(some, id, place) {
            let k = choose|k: int| 0 <= k < some.len() && names_place(#[trigger] some[k], id, place);
            assert(names_place(all[k], id, place));
        }
        if listed(new, id, place) {
            assert(names_place(new[0], id, place));
            assert(names_place(all[some.len() as int], id, place));
        }
        if listed(all, id, place) {
            let k = choose|k: int| 0 <= k < all.len() && names_place(#[trigger] all[k], id, place);
            if k < some.len() {
                assert(names_place(some[k], id, place));
            } else {
                assert(names_place(new[0], id, place));
            }
        }
    }
}

proof fn filters_split(s: Seq<Seq<char>>, p: spec_fn(Seq<char>) -> bool, q: spec_fn(Seq<char>) -> bool)
    requires
        forall|t: Seq<char>| #[trigger] p(t) == !q(t),
    ensures
        s.filter(p).len() + s.filter(q).len() == s.len(),
        forall|t: Seq<char>| #[trigger]
            s.contains(t) <==> s.filter(p).contains(t) || s.filter(q).contains(t),
    decreases s.len(),
{
    reveal(Seq::filter);
    if s.len() > 0 {
        let front = s.drop_last();
        filters_split(front, p, q);
        let x = s.last();
        assert(p(x) == !q(x));
        let (a, b) = (front.filter(p), front.filter(q));
        assert forall|t: Seq<char>| #[trigger] s.contains(t) <==> s.filter(p).contains(t) || s.filter(
            q,
        ).contains(t) by {
            assert(s =~= front.push(x));
            pushed_contains(front, x, t);
            pushed_contains(a, x, t);
            pushed_contains(b, x, t);
        }
    }
}

proof fn pushed_contains(s: Seq<Seq<char>>, x: Seq<char>, t: Seq<char>)
    ensures
        s.push(x).contains(t) <==> s.contains(t) || t == x,
{
    let r = s.push(x);
    if s.contains(t) {
        let i = choose|i: int| 0 <= i < s.len() && s[i] == t;
        assert(r[i] == t);
    }
    assert(r[s.len() as int] == x);
    if r.contains(t) {
        let i = choose|i: int| 0 <= i < r.len() && r[i] == t;
        if i < s.len() {
            assert(s[i] == t);
        }
    }
}

/// Of no more than eight addresses all are kept.
proof fn few_are_kept(known: Seq<Seq<char>>)
    requires
        known.len() <= 8,
    ensures
        best_hints(known).len() == known.len(),
        forall|id: Seq<u8>, place: Place| #[trigger]
            listed(best_hints(known), id, place) <==> listed(known, id, place),
{
    let p = |t: Seq<char>| has_direct(t);
    let q = |t: Seq<char>| !has_direct(t);
    filters_split(known, p, q);
    let (a, b) = (known.filter(p), known.filter(q));
    let best = best_hints(known);
    assert(best == a + b);
    assert forall|id: Seq<u8>, place: Place| #[trigger] listed(best, id, place) <==> listed(
        known,
        id,
        place,
    ) by {
        if listed(best, id, place) {
            let k = choose|k: int| 0 <= k < best.len() && names_place(#[trigger] best[k], id, place);
            let t = best[k];
            if k < a.len() {
                assert(a[k] == t);
            } else {
                assert(b[k - a.len()] == t);
            }
            assert(a.contains(t) || b.contains(t));
            assert(known.contains(t));
            let j = choose|j: int| 0 <= j < known.len() && known[j] == t;
            assert(names_place(known[j], id, place));
        }
        if listed(known, id, place) {
            let j = choose|j: int| 0 <= j < known.len() && names_place(#[trigger] known[j], id, place);
            let t = known[j];
            assert(known.contains(t));
            if a.contains(t) {
                let k = choose|k: int| 0 <= k < a.len() && a[k] == t;
                assert(best[k] == t);
                assert(names_place(best[k], id, place));
            } else {
                let k = choose|k: int| 0 <= k < b.len() && b[k] == t;
                assert(best[a.len() + k] == t);
                assert(names_place(best[a.len() + k], id, place));
            }
        }
    }
}

fn add_hint(known: &mut Vec<String>, observed: &str)
    ensures
        texts(final(known)@) == with_hint(texts(old(known)@), observed@),
        nothing_lost(texts(old(known)@), seq![observed@], texts(final(known)@)),
{
    let ghost before = texts(known@);
    let mut i: usize = 0;
    let mut held = false;
    while i < known.len()
        invariant
            i <= known@.len(),
            known@ == old(known)@,
            before == texts(known@),
            forall|j: int| 0 <= j < i ==> merged_hint(#[trigger] before[j], observed@) is None,
            held <==> exists|j: int| 0 <= j < i && #[trigger] before[j] == observed@,
        decreases known.len() - i,
    {
        match merge_peer_address_hints(known[i].as_str(), observed) {
            Some(joined) => {
                proof {
                    join_at_is_first(before, observed@, 0, i as int);
                }
                known[i] = joined;
                assert(texts(known@) =~= before.update(i as int, joined@));
                proof {
                    joining_loses_nothing(before, i as int, observed@, joined@);
                }
                return;
            },
            None => {},
        }
        let same = same_text(known[i].as_str(), observed);
        assert(before[i as int] == known@[i as int]@);
        if same {
            held = true;
        }
        i += 1;
    }
    proof {
        join_at_is_first(before, observed@, 0, i as int);
        adding_loses_nothing(before, observed@);
        if before.contains(observed@) {
            let j = choose|j: int| 0 <= j < before.len() && before[j] == observed@;
            assert(before[j] == observed@);
        }
    }
    if !held {
        known.push(observed.to_owned());
        assert(texts(known@) =~= before.push(observed@));
    } else {
        assert(before.contains(observed@));
    }
}

/// The strings whose addresses are, or are not, direct.
fn pick(known: &Vec<String>, direct: bool, out: &mut Vec<String>)
    ensures
        texts(final(out)@) == texts(old(out)@) + texts(known@).filter(
            |t: Seq<char>| has_direct(t) == direct,
        ),
{
    let ghost before = texts(out@);
    let ghost all = texts(known@);
    let ghost p = |t: Seq<char>| has_direct(t) == direct;
    let mut i: usize = 0;
    assert(all.take(0).filter(p) =~= Seq::<Seq<char>>::empty()) by {
        reveal(Seq::filter);
    }
    assert(texts(out@) =~= before + all.take(0).filter(p));
    while i < known.len()
        invariant
            i <= known@.len(),
            all == texts(known@),
            p == (|t: Seq<char>| has_direct(t) == direct),
            texts(out@) == before + all.take(i as int).filter(p),
        decreases known.len() - i,
    {
        let ghost was = texts(out@);
        proof {
            let t = all.take(i + 1);
            assert(t.drop_last() =~= all.take(i as int));
            assert(t.last() == all[i as int]);
            reveal(Seq::filter);
        }
        if peer_address_has_direct_hint(known[i].as_str()) == direct {
            out.push(known[i].clone());
            assert(texts(out@) =~= was.push(all[i as int]));
            assert(texts(out@) =~= before + all.take(i + 1).filter(p));
        } else {
            assert(texts(out@) =~= before + all.take(i + 1).filter(p));
        }
        i += 1;
    }
    assert(all.take(i as int) =~= all);
}

/// Folds observed addresses into the known ones. No place that any of them names is lost before the
/// list is cut to eight addresses.
pub fn merge_addresses(known: &Vec<String>, observed: &Vec<DialHint>) -> (r: Result<Vec<String>, Error>)
    ensures
        r matches Err(e) ==> hints_fault(observed@) == Some(e),
        r matches Ok(v) ==> hints_fault(observed@) is None && texts(v@) == best_hints(
            with_hints(texts(known@), observed@),
        ),
        r is Ok ==> nothing_lost(
            texts(known@),
            hint_texts(observed@),
            with_hints(texts(known@), observed@),
        ),
        r matches Ok(v) ==> with_hints(texts(known@), observed@).len() <= 8 ==> nothing_lost(
            texts(known@),
            hint_texts(observed@),
            texts(v@),
        ),
{
    let mut merged = crate::record::copy_texts(known);
    let mut i: usize = 0;
    assert(observed@.take(0) =~= Seq::<DialHint>::empty());
    assert(nothing_lost(texts(known@), hint_texts(observed@.take(0)), texts(merged@)));
    while i < observed.len()
        invariant
            i <= observed@.len(),
            hints_fault(observed@.take(i as int)) is None,
            texts(merged@) == with_hints(texts(known@), observed@.take(i as int)),
            nothing_lost(texts(known@), hint_texts(observed@.take(i as int)), texts(merged@)),
        decreases observed.len() - i,
    {
        proof {
            assert(observed@.take(i + 1).drop_last() =~= observed@.take(i as int));
            assert(observed@.take(i + 1).last() == observed@[i as int]);
        }
        match validate_peer_address(&observed[i]) {
            Ok(()) => {},
            Err(e) => {
                proof {
                    hints_fault_prefix(observed@, i + 1);
                }
                return Err(e);
            },
        }
        let ghost between = texts(merged@);
        add_hint(&mut merged, observed[i].text.as_str());
        proof {
            let some = hint_texts(observed@.take(i as int));
            let one = observed@[i as int].text@;
            losing_nothing_adds_up(texts(known@), some, between, one, texts(merged@));
            assert(some.push(one) =~= hint_texts(observed@.take(i + 1)));
        }
        i += 1;
    }
    assert(observed@.take(i as int) =~= observed@);
    let mut out: Vec<String> = Vec::new();
    assert(texts(out@) =~= Seq::<Seq<char>>::empty());
    pick(&merged, true, &mut out);
    pick(&merged, false, &mut out);
    proof {
        let all = texts(merged@);
        filters_agree(all, |t: Seq<char>| has_direct(t) == true, |t: Seq<char>| has_direct(t));
        filters_agree(all, |t: Seq<char>| has_direct(t) == false, |t: Seq<char>| !has_direct(t));
        assert(Seq::<Seq<char>>::empty() + all.filter(|t: Seq<char>| has_direct(t)) =~= all.filter(
            |t: Seq<char>| has_direct(t),
        ));
    }
    proof {
        if texts(merged@).len() <= 8 {
            few_are_kept(texts(merged@));
        }
    }
    let ghost all = texts(out@);
    out.truncate(8);
    assert(texts(out@) =~= if all.len() > 8 {
        all.take(8)
    } else {
        all
    });
    Ok(out)
}

proof fn filters_agree(
    s: Seq<Seq<char>>,
    p: spec_fn(Seq<char>) -> bool,
    q: spec_fn(Seq<char>) -> bool,
)
    requires
        forall|t: Seq<char>| #[trigger] p(t) == q(t),
    ensures
        s.filter(p) == s.filter(q),
    decreases s.len(),
{
    reveal(Seq::filter);
    if s.len() > 0 {
        filters_agree(s.drop_last(), p, q);
        assert(p(s.last()) == q(s.last()));
    }
}

/// Two addresses are joined only where both are those of one device.
pub proof fn joined_addresses_are_of_one_device(known: Seq<char>, observed: Seq<char>)
    requires
        merged_hint(known, observed) is Some,
    ensures
        address_check(known) is Ok,
        address_check(observed) is Ok,
        (address_check(known)->Ok_0).id == (address_check(observed)->Ok_0).id,
{
}

} // verus!
