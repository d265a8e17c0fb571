//! The data model of the daemon gateway: validated query values, the
//! commands sent to the daemon, and the typed records the parsers produce.

use vstd::prelude::*;

use crate::text::{chars_of, class_test, is_space, is_word, Cls};

verus! {

// --- query value validation ---

/// Characters a query value may contain: letters, digits, `_`, `.`, `:`.
pub open spec fn is_query_char(c: char) -> bool {
    is_word(c) || c == '.' || c == ':'
}

/// A string accepted by query validation: non-empty, at most 128
/// characters, all of them query characters.
pub open spec fn valid_query(s: Seq<char>) -> bool {
    &&& 1 <= s.len() <= 128
    &&& forall|i: int| 0 <= i < s.len() ==> is_query_char(s[i])
}

/// The reason reported when validation fails.
pub open spec fn spec_validation_reason(s: Seq<char>) -> Seq<char> {
    if s.len() == 0 {
        "is empty"@
    } else if s.len() > 128 {
        "is too long"@
    } else {
        "contains invalid characters"@
    }
}

/// The error a rejected query value carries: the input and the reason.
#[derive(Debug)]
pub struct ValidationError {
    pub input: String,
    pub reason: String,
}

impl ValidationError {
    /// The failure rendered as one line.
    pub fn message(&self) -> (r: String)
        ensures
            r@ == "Validation failed '"@ + self.input@ + "': "@ + self.reason@,
    {
        let mut m = String::new();
        m.append("Validation failed '");
        m.append(self.input.as_str());
        m.append("': ");
        m.append(self.reason.as_str());
        m
    }
}

/// A parameter that will be embedded in a query sent to the daemon.
/// It can only be built by [`QueryValue::parse`], so it always holds a
/// validated string.
#[derive(Debug)]
pub struct QueryValue {
    value: String,
}

impl View for QueryValue {
    type V = Seq<char>;

    closed spec fn view(&self) -> Seq<char> {
        self.value@
    }
}

/// Basic string validation: non-empty, at most 128 characters, letters,
/// digits, `_`, `.` and `:` only.
pub fn validate_string(s: &str) -> (r: Result<(), ValidationError>)
    ensures
        match r {
            Ok(_) => valid_query(s@),
            Err(e) => !valid_query(s@) && e.input@ == s@ && e.reason@ == spec_validation_reason(
                s@,
            ),
        },
{
    proof {
        reveal_strlit("is empty");
        reveal_strlit("is too long");
        reveal_strlit("contains invalid characters");
    }
    let v = chars_of(s);
    if v.len() == 0 {
        return Err(ValidationError { input: s.to_owned(), reason: "is empty".to_owned() });
    }
    if v.len() > 128 {
        return Err(ValidationError { input: s.to_owned(), reason: "is too long".to_owned() });
    }
    let mut i: usize = 0;
    while i < v.len()
        invariant
            i <= v@.len(),
            v@ == s@,
            1 <= s@.len() <= 128,
            forall|k: int| 0 <= k < i ==> is_query_char(s@[k]),
        decreases v@.len() - i,
    {
        let c = v[i];
        if !(class_test(Cls::Word, c) || c == '.' || c == ':') {
            proof {
                assert(!is_query_char(s@[i as int]));
                assert(!valid_query(s@));
            }
            let reason = "contains invalid characters".to_owned();
            proof {
                assert(s@.len() >= 1 && s@.len() <= 128);
                assert(spec_validation_reason(s@) == "contains invalid characters"@);
                assert(reason@ == spec_validation_reason(s@));
            }
            return Err(ValidationError { input: s.to_owned(), reason });
        }
        i += 1;
    }
    Ok(())
}

impl QueryValue {
    /// The value this query value holds is validated.
    pub open spec fn wf(&self) -> bool {
        valid_query(self@)
    }

    /// Parse a query value from a string: accepted exactly when validation
    /// accepts it; otherwise rejected with the reason.
    pub fn parse(s: &str) -> (r: Result<Self, ValidationError>)
        ensures
            match r {
                Ok(q) => valid_query(s@) && q@ == s@,
                Err(e) => !valid_query(s@) && e.input@ == s@ && e.reason@
                    == spec_validation_reason(s@),
            },
    {
        match validate_string(s) {
            Ok(_) => Ok(QueryValue { value: s.to_owned() }),
            Err(e) => Err(e),
        }
    }

    /// Get the value as a string.
    pub fn as_str(&self) -> (r: &str)
        ensures
            r@ == self@,
    {
        self.value.as_str()
    }
}

/// Identifies a protocol (a BGP neighbor) on the daemon.
pub type ProtocolID = QueryValue;

/// Identifies a routing table on the daemon.
pub type TableID = QueryValue;

/// Identifies a peer in a `where from=` query.
pub type PeerID = QueryValue;

/// Every character a validated query value holds is a letter, a digit,
/// `_`, `.` or `:`; in particular it holds no quote, no newline and no
/// whitespace, so a command that embeds it between single quotes contains
/// it verbatim and introduces no other metacharacters.
pub proof fn lemma_query_value_safe(v: Seq<char>)
    requires
        valid_query(v),
    ensures
        forall|i: int| 0 <= i < v.len() ==> is_query_char(v[i]),
        forall|i: int| 0 <= i < v.len() ==> v[i] != '\'' && v[i] != '\n' && !is_space(v[i]),
{
    assert forall|i: int| 0 <= i < v.len() implies v[i] != '\'' && v[i] != '\n' && !is_space(
        v[i],
    ) by {
        assert(is_query_char(v[i]));
    }
}

// --- the daemon client and its commands ---

/// Holds the address of the daemon's control socket. The dialogs
/// themselves are I/O and live outside the library; the commands they
/// write are composed here.
pub struct Birdc {
    socket: String,
}

impl View for Birdc {
    type V = Seq<char>;

    closed spec fn view(&self) -> Seq<char> {
        self.socket@
    }
}

impl Birdc {
    /// Create a new client for the given control socket path.
    pub fn new(socket: String) -> (r: Self)
        ensures
            r@ == socket@,
    {
        Birdc { socket }
    }

    /// The socket path this client dials.
    pub fn socket(&self) -> (r: &str)
        ensures
            r@ == self@,
    {
        self.socket.as_str()
    }
}

pub fn cmd_show_status() -> (r: String)
    ensures
        r@ == "show status\n"@,
{
    "show status\n".to_owned()
}

pub fn cmd_show_protocols_all() -> (r: String)
    ensures
        r@ == "show protocols all\n"@,
{
    "show protocols all\n".to_owned()
}

pub fn cmd_show_route_all_table(table: &TableID) -> (r: String)
    requires
        table.wf(),
    ensures
        r@ == "show route all table '"@ + table@ + "'\n"@,
{
    let mut c = String::new();
    c.append("show route all table '");
    c.append(table.as_str());
    c.append("'\n");
    c
}

pub fn cmd_show_route_all_filtered_table(table: &TableID) -> (r: String)
    requires
        table.wf(),
    ensures
        r@ == "show route all filtered table '"@ + table@ + "'\n"@,
{
    let mut c = String::new();
    c.append("show route all filtered table '");
    c.append(table.as_str());
    c.append("'\n");
    c
}

pub fn cmd_show_route_all_protocol(protocol: &ProtocolID) -> (r: String)
    requires
        protocol.wf(),
    ensures
        r@ == "show route all protocol '"@ + protocol@ + "'\n"@,
{
    let mut c = String::new();
    c.append("show route all protocol '");
    c.append(protocol.as_str());
    c.append("'\n");
    c
}

pub fn cmd_show_route_all_filtered_protocol(protocol: &ProtocolID) -> (r: String)
    requires
        protocol.wf(),
    ensures
        r@ == "show route all filtered protocol '"@ + protocol@ + "'\n"@,
{
    let mut c = String::new();
    c.append("show route all filtered protocol '");
    c.append(protocol.as_str());
    c.append("'\n");
    c
}

pub fn cmd_show_route_all_noexport_protocol(protocol: &ProtocolID) -> (r: String)
    requires
        protocol.wf(),
    ensures
        r@ == "show route all noexport '"@ + protocol@ + "'\n"@,
{
    let mut c = String::new();
    c.append("show route all noexport '");
    c.append(protocol.as_str());
    c.append("'\n");
    c
}

pub fn cmd_show_route_all_table_peer(table: &TableID, peer: &PeerID) -> (r: String)
    requires
        table.wf(),
        peer.wf(),
    ensures
        r@ == "show route all table '"@ + table@ + "' where from="@ + peer@ + "\n"@,
{
    let mut c = String::new();
    c.append("show route all table '");
    c.append(table.as_str());
    c.append("' where from=");
    c.append(peer.as_str());
    c.append("\n");
    c
}

// --- the typed records ---

/// The daemon's status record.
pub struct BirdStatus {
    pub current_server: String,
    pub last_reboot: String,
    pub last_reconfig: String,
    pub message: String,
    pub router_id: String,
    pub version: String,
}

pub struct BirdStatusView {
    pub current_server: Seq<char>,
    pub last_reboot: Seq<char>,
    pub last_reconfig: Seq<char>,
    pub message: Seq<char>,
    pub router_id: Seq<char>,
    pub version: Seq<char>,
}

impl BirdStatusView {
    /// The record before any line was applied: every field empty.
    pub open spec fn init() -> Self {
        BirdStatusView {
            current_server: Seq::empty(),
            last_reboot: Seq::empty(),
            last_reconfig: Seq::empty(),
            message: Seq::empty(),
            router_id: Seq::empty(),
            version: Seq::empty(),
        }
    }
}

impl View for BirdStatus {
    type V = BirdStatusView;

    open spec fn view(&self) -> BirdStatusView {
        BirdStatusView {
            current_server: self.current_server@,
            last_reboot: self.last_reboot@,
            last_reconfig: self.last_reconfig@,
            message: self.message@,
            router_id: self.router_id@,
            version: self.version@,
        }
    }
}

impl BirdStatus {
    /// A status with every field empty.
    pub fn empty() -> (r: Self)
        ensures
            r@ == BirdStatusView::init(),
    {
        BirdStatus {
            current_server: String::new(),
            last_reboot: String::new(),
            last_reconfig: String::new(),
            message: String::new(),
            router_id: String::new(),
            version: String::new(),
        }
    }
}

/// Per-label route counts of one channel ("imported", "filtered", ...),
/// in the order the daemon printed them.
pub struct RoutesCount {
    pub entries: Vec<(String, u32)>,
}

/// The view of a label-to-count mapping: label/count pairs in order.
pub open spec fn counts_view(v: Seq<(String, u32)>) -> Seq<(Seq<char>, u32)> {
    v.map_values(|p: (String, u32)| (p.0@, p.1))
}

/// The count stored for a label: the first entry with that label, or zero.
pub open spec fn count_of(m: Seq<(Seq<char>, u32)>, k: Seq<char>) -> u32
    decreases m.len(),
{
    if m.len() == 0 {
        0
    } else if m[0].0 == k {
        m[0].1
    } else {
        count_of(m.drop_first(), k)
    }
}

impl View for RoutesCount {
    type V = Seq<(Seq<char>, u32)>;

    open spec fn view(&self) -> Seq<(Seq<char>, u32)> {
        counts_view(self.entries@)
    }
}

impl RoutesCount {
    /// No counts.
    pub fn empty() -> (r: Self)
        ensures
            r@ == Seq::<(Seq<char>, u32)>::empty(),
    {
        let r = RoutesCount { entries: Vec::new() };
        proof {
            assert(r@ =~= Seq::<(Seq<char>, u32)>::empty());
        }
        r
    }


    /// The count stored for a label, zero when absent.
    pub fn get(&self, key: &str) -> (r: u32)
        ensures
            r == count_of(self@, key@),
    {
        let mut i: usize = 0;
        proof {
            assert(self@.skip(0) =~= self@);
        }
        while i < self.entries.len()
            invariant
                i <= self.entries@.len(),
                count_of(self@, key@) == count_of(self@.skip(i as int), key@),
            decreases self.entries@.len() - i,
        {
            proof {
                assert(self@.skip(i as int)[0] == self@[i as int]);
                assert(self@.skip(i as int).drop_first() =~= self@.skip(i + 1));
            }
            if str_eq(self.entries[i].0.as_str(), key) {
                return self.entries[i].1;
            }
            i += 1;
        }
        proof {
            assert(self@.skip(self.entries@.len() as int).len() == 0);
        }
        0
    }
}

/// Compare two strings character for character.
pub fn str_eq(a: &str, b: &str) -> (r: bool)
    ensures
        r == (a@ == b@),
{
    let alen = a.unicode_len();
    let blen = b.unicode_len();
    if alen != blen {
        return false;
    }
    let mut i: usize = 0;
    while i < alen
        invariant
            alen == a@.len() == b@.len(),
            i <= alen,
            forall|k: int| 0 <= k < i ==> a@[k] == b@[k],
        decreases alen - i,
    {
        if a.get_char(i) != b.get_char(i) {
            return false;
        }
        i += 1;
    }
    proof {
        assert(a@ =~= b@);
    }
    true
}

// --- channels and protocols ---

/// Per-label stats of one change-stats row; a label maps to nothing where
/// the daemon printed `---`.
pub type RouteChangeStats = Vec<(String, Option<u32>)>;

pub open spec fn stats_view(v: Seq<(String, Option<u32>)>) -> Seq<(Seq<char>, Option<u32>)> {
    v.map_values(|p: (String, Option<u32>)| (p.0@, p.1))
}

pub open spec fn opt_str_view(o: Option<String>) -> Option<Seq<char>> {
    match o {
        Some(s) => Some(s@),
        None => None,
    }
}

/// The four change-stats rows of a channel.
pub struct RouteChanges {
    pub import_updates: RouteChangeStats,
    pub import_withdraws: RouteChangeStats,
    pub export_updates: RouteChangeStats,
    pub export_withdraws: RouteChangeStats,
}

pub struct RouteChangesView {
    pub import_updates: Seq<(Seq<char>, Option<u32>)>,
    pub import_withdraws: Seq<(Seq<char>, Option<u32>)>,
    pub export_updates: Seq<(Seq<char>, Option<u32>)>,
    pub export_withdraws: Seq<(Seq<char>, Option<u32>)>,
}

impl RouteChangesView {
    pub open spec fn init() -> Self {
        RouteChangesView {
            import_updates: Seq::empty(),
            import_withdraws: Seq::empty(),
            export_updates: Seq::empty(),
            export_withdraws: Seq::empty(),
        }
    }
}

impl View for RouteChanges {
    type V = RouteChangesView;

    open spec fn view(&self) -> RouteChangesView {
        RouteChangesView {
            import_updates: stats_view(self.import_updates@),
            import_withdraws: stats_view(self.import_withdraws@),
            export_updates: stats_view(self.export_updates@),
            export_withdraws: stats_view(self.export_withdraws@),
        }
    }
}

impl RouteChanges {
    pub fn empty() -> (r: Self)
        ensures
            r@ == RouteChangesView::init(),
    {
        let r = RouteChanges {
            import_updates: Vec::new(),
            import_withdraws: Vec::new(),
            export_updates: Vec::new(),
            export_withdraws: Vec::new(),
        };
        proof {
            assert(stats_view(Seq::<(String, Option<u32>)>::empty()) =~= Seq::<(
                Seq<char>,
                Option<u32>,
            )>::empty());
        }
        r
    }
}

/// One per-address-family channel of a protocol.
pub struct Channel {
    pub state: String,
    pub import_state: String,
    pub export_state: String,
    pub table: String,
    pub peer_table: String,
    pub preference: u32,
    pub input_filter: String,
    pub output_filter: String,
    pub routes_count: RoutesCount,
    pub route_change_stats: RouteChanges,
    pub bgp_next_hop: String,
}

pub struct ChannelView {
    pub state: Seq<char>,
    pub import_state: Seq<char>,
    pub export_state: Seq<char>,
    pub table: Seq<char>,
    pub peer_table: Seq<char>,
    pub preference: u32,
    pub input_filter: Seq<char>,
    pub output_filter: Seq<char>,
    pub routes_count: Seq<(Seq<char>, u32)>,
    pub route_change_stats: RouteChangesView,
    pub bgp_next_hop: Seq<char>,
}

impl ChannelView {
    pub open spec fn init() -> Self {
        ChannelView {
            state: Seq::empty(),
            import_state: Seq::empty(),
            export_state: Seq::empty(),
            table: Seq::empty(),
            peer_table: Seq::empty(),
            preference: 0,
            input_filter: Seq::empty(),
            output_filter: Seq::empty(),
            routes_count: Seq::empty(),
            route_change_stats: RouteChangesView::init(),
            bgp_next_hop: Seq::empty(),
        }
    }
}

impl View for Channel {
    type V = ChannelView;

    open spec fn view(&self) -> ChannelView {
        ChannelView {
            state: self.state@,
            import_state: self.import_state@,
            export_state: self.export_state@,
            table: self.table@,
            peer_table: self.peer_table@,
            preference: self.preference,
            input_filter: self.input_filter@,
            output_filter: self.output_filter@,
            routes_count: self.routes_count@,
            route_change_stats: self.route_change_stats@,
            bgp_next_hop: self.bgp_next_hop@,
        }
    }
}

impl Channel {
    pub fn empty() -> (r: Self)
        ensures
            r@ == ChannelView::init(),
    {
        Channel {
            state: String::new(),
            import_state: String::new(),
            export_state: String::new(),
            table: String::new(),
            peer_table: String::new(),
            preference: 0,
            input_filter: String::new(),
            output_filter: String::new(),
            routes_count: RoutesCount::empty(),
            route_change_stats: RouteChanges::empty(),
            bgp_next_hop: String::new(),
        }
    }
}

/// The channels of a protocol, keyed by channel name in insertion order.
pub type ChannelMap = Vec<(String, Channel)>;

pub open spec fn channels_view(v: Seq<(String, Channel)>) -> Seq<(Seq<char>, ChannelView)> {
    v.map_values(|p: (String, Channel)| (p.0@, p.1@))
}

/// One protocol (a neighbor) on the daemon.
pub struct Protocol {
    pub id: String,
    pub bird_protocol: String,
    pub address: String,
    pub asn: u32,
    pub state: String,
    pub description: String,
    pub routes: RoutesCount,
    pub channels: ChannelMap,
    pub since: String,
    pub state_changed: String,
    pub last_error: String,
    pub table: String,
    pub peer_table: String,
}

pub struct ProtocolView {
    pub id: Seq<char>,
    pub bird_protocol: Seq<char>,
    pub address: Seq<char>,
    pub asn: u32,
    pub state: Seq<char>,
    pub description: Seq<char>,
    pub routes: Seq<(Seq<char>, u32)>,
    pub channels: Seq<(Seq<char>, ChannelView)>,
    pub since: Seq<char>,
    pub state_changed: Seq<char>,
    pub last_error: Seq<char>,
    pub table: Seq<char>,
    pub peer_table: Seq<char>,
}

impl ProtocolView {
    pub open spec fn init() -> Self {
        ProtocolView {
            id: Seq::empty(),
            bird_protocol: Seq::empty(),
            address: Seq::empty(),
            asn: 0,
            state: Seq::empty(),
            description: Seq::empty(),
            routes: Seq::empty(),
            channels: Seq::empty(),
            since: Seq::empty(),
            state_changed: Seq::empty(),
            last_error: Seq::empty(),
            table: Seq::empty(),
            peer_table: Seq::empty(),
        }
    }
}

impl View for Protocol {
    type V = ProtocolView;

    open spec fn view(&self) -> ProtocolView {
        ProtocolView {
            id: self.id@,
            bird_protocol: self.bird_protocol@,
            address: self.address@,
            asn: self.asn,
            state: self.state@,
            description: self.description@,
            routes: self.routes@,
            channels: channels_view(self.channels@),
            since: self.since@,
            state_changed: self.state_changed@,
            last_error: self.last_error@,
            table: self.table@,
            peer_table: self.peer_table@,
        }
    }
}

impl Protocol {
    pub fn empty() -> (r: Self)
        ensures
            r@ == ProtocolView::init(),
    {
        let r = Protocol {
            id: String::new(),
            bird_protocol: String::new(),
            address: String::new(),
            asn: 0,
            state: String::new(),
            description: String::new(),
            routes: RoutesCount::empty(),
            channels: Vec::new(),
            since: String::new(),
            state_changed: String::new(),
            last_error: String::new(),
            table: String::new(),
            peer_table: String::new(),
        };
        proof {
            assert(channels_view(Seq::<(String, Channel)>::empty()) =~= Seq::<(
                Seq<char>,
                ChannelView,
            )>::empty());
        }
        r
    }
}

/// The protocols of one response, keyed by protocol id in insertion order.
pub type ProtocolsMap = Vec<(String, Protocol)>;

pub open spec fn protocols_view(v: Seq<(String, Protocol)>) -> Seq<(Seq<char>, ProtocolView)> {
    v.map_values(|p: (String, Protocol)| (p.0@, p.1@))
}

pub open spec fn protocols_seq_view(v: Seq<Protocol>) -> Seq<ProtocolView> {
    v.map_values(|p: Protocol| p@)
}

// --- routes ---

/// A regular BGP community.
#[derive(Clone, Copy, PartialEq, Eq, Structural, Debug)]
pub struct Community(pub u32, pub u32);

/// A large BGP community.
#[derive(Clone, Copy, PartialEq, Eq, Structural, Debug)]
pub struct LargeCommunity(pub u32, pub u32, pub u32);

/// An extended BGP community; its parts are kept as the daemon printed
/// them.
#[derive(Clone, PartialEq, Debug)]
pub struct ExtCommunity(pub String, pub String, pub String);

impl View for ExtCommunity {
    type V = (Seq<char>, Seq<char>, Seq<char>);

    open spec fn view(&self) -> (Seq<char>, Seq<char>, Seq<char>) {
        (self.0@, self.1@, self.2@)
    }
}

pub open spec fn ext_communities_view(v: Seq<ExtCommunity>) -> Seq<(Seq<char>, Seq<char>, Seq<char>)> {
    v.map_values(|e: ExtCommunity| e@)
}

/// The BGP attributes of a route.
pub struct BGPInfo {
    pub origin: String,
    pub as_path: Vec<String>,
    pub next_hop: String,
    pub communities: Vec<Community>,
    pub large_communities: Vec<LargeCommunity>,
    pub ext_communities: Vec<ExtCommunity>,
    pub local_pref: String,
    pub med: String,
    pub otc: Option<String>,
}

pub struct BGPInfoView {
    pub origin: Seq<char>,
    pub as_path: Seq<Seq<char>>,
    pub next_hop: Seq<char>,
    pub communities: Seq<Community>,
    pub large_communities: Seq<LargeCommunity>,
    pub ext_communities: Seq<(Seq<char>, Seq<char>, Seq<char>)>,
    pub local_pref: Seq<char>,
    pub med: Seq<char>,
    pub otc: Option<Seq<char>>,
}

impl BGPInfoView {
    pub open spec fn init() -> Self {
        BGPInfoView {
            origin: Seq::empty(),
            as_path: Seq::empty(),
            next_hop: Seq::empty(),
            communities: Seq::empty(),
            large_communities: Seq::empty(),
            ext_communities: Seq::empty(),
            local_pref: Seq::empty(),
            med: Seq::empty(),
            otc: None,
        }
    }
}

impl View for BGPInfo {
    type V = BGPInfoView;

    open spec fn view(&self) -> BGPInfoView {
        BGPInfoView {
            origin: self.origin@,
            as_path: crate::text::strings_view(self.as_path@),
            next_hop: self.next_hop@,
            communities: self.communities@,
            large_communities: self.large_communities@,
            ext_communities: ext_communities_view(self.ext_communities@),
            local_pref: self.local_pref@,
            med: self.med@,
            otc: opt_str_view(self.otc),
        }
    }
}

impl BGPInfo {
    pub fn empty() -> (r: Self)
        ensures
            r@ == BGPInfoView::init(),
    {
        let r = BGPInfo {
            origin: String::new(),
            as_path: Vec::new(),
            next_hop: String::new(),
            communities: Vec::new(),
            large_communities: Vec::new(),
            ext_communities: Vec::new(),
            local_pref: String::new(),
            med: String::new(),
            otc: None,
        };
        proof {
            assert(crate::text::strings_view(Seq::<String>::empty()) =~= Seq::<Seq<char>>::empty());
            assert(ext_communities_view(Seq::<ExtCommunity>::empty()) =~= Seq::<(
                Seq<char>,
                Seq<char>,
                Seq<char>,
            )>::empty());
        }
        r
    }
}

/// One route record from a 1007 block.
pub struct Route {
    pub neighbor_id: Option<String>,
    pub network: String,
    pub interface: String,
    pub gateway: String,
    pub metric: u32,
    pub bgp: BGPInfo,
    pub age: String,
    pub route_type: Vec<String>,
    pub primary: bool,
    pub learnt_from: Option<String>,
}

pub struct RouteView {
    pub neighbor_id: Option<Seq<char>>,
    pub network: Seq<char>,
    pub interface: Seq<char>,
    pub gateway: Seq<char>,
    pub metric: u32,
    pub bgp: BGPInfoView,
    pub age: Seq<char>,
    pub route_type: Seq<Seq<char>>,
    pub primary: bool,
    pub learnt_from: Option<Seq<char>>,
}

impl RouteView {
    pub open spec fn init() -> Self {
        RouteView {
            neighbor_id: None,
            network: Seq::empty(),
            interface: Seq::empty(),
            gateway: Seq::empty(),
            metric: 0,
            bgp: BGPInfoView::init(),
            age: Seq::empty(),
            route_type: Seq::empty(),
            primary: false,
            learnt_from: None,
        }
    }
}

impl View for Route {
    type V = RouteView;

    open spec fn view(&self) -> RouteView {
        RouteView {
            neighbor_id: opt_str_view(self.neighbor_id),
            network: self.network@,
            interface: self.interface@,
            gateway: self.gateway@,
            metric: self.metric,
            bgp: self.bgp@,
            age: self.age@,
            route_type: crate::text::strings_view(self.route_type@),
            primary: self.primary,
            learnt_from: opt_str_view(self.learnt_from),
        }
    }
}

impl Route {
    pub fn empty() -> (r: Self)
        ensures
            r@ == RouteView::init(),
    {
        let r = Route {
            neighbor_id: None,
            network: String::new(),
            interface: String::new(),
            gateway: String::new(),
            metric: 0,
            bgp: BGPInfo::empty(),
            age: String::new(),
            route_type: Vec::new(),
            primary: false,
            learnt_from: None,
        };
        proof {
            assert(crate::text::strings_view(Seq::<String>::empty()) =~= Seq::<Seq<char>>::empty());
        }
        r
    }
}

pub open spec fn routes_view(v: Seq<Route>) -> Seq<RouteView> {
    v.map_values(|r: Route| r@)
}

} // verus!
