//! One interface's live snapshot as the network-management daemon reports
//! it, and its decoding from the daemon's structured status report.
//!
//! The report text is parsed behind the trusted boundary in
//! [`crate::json_ext`], whose whole result is the named value tree
//! [`json_tree_of`].  Everything from that tree to the typed snapshot —
//! required and optional fields, byte-array addresses, primary-address
//! selection — is verified here against a spec-level decoding of the
//! schema, so the decoder's contract fixes the result for every input.
//!
//! A decode failure is `Err(None)` at the spec level — the schema did not
//! match, `StatusParseFailed` — or `Err(Some(bytes))` — an address byte
//! array of a bad length, `BadAddressEncoding` carrying those bytes.

use vstd::prelude::*;

use crate::errors::NetdogError;
use crate::interface_name::{valid_interface_name, InterfaceName};
use crate::ip::{addr_represents, ipaddr_from_vec, lemma_addr_of, spec_addr_of, IpAddress};
use crate::json_ext::{json_tree_of, parse_json_document, JsonNode};
use crate::strutil::str_eq;

verus! {

/// One DNS server record of the status report.
#[derive(Debug, Clone)]
pub struct NetworkdDnsConfig {
    pub family: u8,
    pub address: IpAddress,
    pub config_source: String,
    pub config_provider: IpAddress,
}

/// One search-domain record of the status report.
#[derive(Debug, Clone)]
pub struct SearchDomain {
    pub domain: String,
    pub config_source: String,
    pub config_provider: IpAddress,
}

/// One interface's live snapshot: created fresh from one status report,
/// never mutated.
#[derive(Debug, Clone)]
pub struct NetworkdStatus {
    pub name: InterfaceName,
    pub dns: Option<Vec<NetworkdDnsConfig>>,
    pub search_domains: Option<Vec<SearchDomain>>,
    pub mac_address: Vec<u8>,
    pub addresses: Vec<IpAddress>,
}

/// The field under `key` in an object's fields; keys are unique.
pub open spec fn obj_field(fields: Seq<(String, JsonNode)>, key: Seq<char>) -> Option<JsonNode>
    decreases fields.len(),
{
    if fields.len() == 0 {
        None
    } else if fields[0].0@ == key {
        Some(fields[0].1)
    } else {
        obj_field(fields.drop_first(), key)
    }
}

/// Octets of an array of JSON values: every element must be an integer at
/// most 255.
pub open spec fn spec_bytes_of(items: Seq<JsonNode>) -> Option<Seq<u8>>
    decreases items.len(),
{
    if items.len() == 0 {
        Some(Seq::empty())
    } else {
        match items[0] {
            JsonNode::UInt(u) => if u <= 255 {
                match spec_bytes_of(items.drop_first()) {
                    Some(rest) => Some(seq![u as u8] + rest),
                    None => None,
                }
            } else {
                None
            },
            _ => None,
        }
    }
}

/// A byte-array address value: an array of octets, exactly 4 or 16 of
/// them; any other length is the bad-length failure carrying the octets.
pub open spec fn spec_addr_field(n: JsonNode) -> Result<IpAddress, Option<Seq<u8>>> {
    match n {
        JsonNode::Array(items) => match spec_bytes_of(items@) {
            Some(b) => if b.len() == 4 || b.len() == 16 {
                Ok(spec_addr_of(b))
            } else {
                Err(Some(b))
            },
            None => Err(None),
        },
        _ => Err(None),
    }
}

/// A required integer field that must fit in an octet.
pub open spec fn spec_u8_field(fields: Seq<(String, JsonNode)>, key: Seq<char>) -> Option<u8> {
    match obj_field(fields, key) {
        Some(JsonNode::UInt(u)) => if u <= 255 {
            Some(u as u8)
        } else {
            None
        },
        _ => None,
    }
}

/// A required string field.
pub open spec fn spec_text_field(fields: Seq<(String, JsonNode)>, key: Seq<char>) -> Option<
    Seq<char>,
> {
    match obj_field(fields, key) {
        Some(JsonNode::Text(t)) => Some(t@),
        _ => None,
    }
}

/// The report's `Name`: a string holding a valid interface name.
pub open spec fn spec_name_field(fields: Seq<(String, JsonNode)>) -> Option<Seq<char>> {
    match spec_text_field(fields, "Name"@) {
        Some(t) => if valid_interface_name(t) {
            Some(t)
        } else {
            None
        },
        None => None,
    }
}

/// One `DNS` record: `Family`, `Address`, `ConfigSource`,
/// `ConfigProvider`, read in that order.
pub open spec fn spec_dns_entry(n: JsonNode) -> Result<
    (u8, IpAddress, Seq<char>, IpAddress),
    Option<Seq<u8>>,
> {
    match n {
        JsonNode::Object(fs) => match spec_u8_field(fs@, "Family"@) {
            None => Err(None),
            Some(fam) => match obj_field(fs@, "Address"@) {
                None => Err(None),
                Some(an) => match spec_addr_field(an) {
                    Err(e) => Err(e),
                    Ok(addr) => match spec_text_field(fs@, "ConfigSource"@) {
                        None => Err(None),
                        Some(src) => match obj_field(fs@, "ConfigProvider"@) {
                            None => Err(None),
                            Some(pn) => match spec_addr_field(pn) {
                                Err(e) => Err(e),
                                Ok(prov) => Ok((fam, addr, src, prov)),
                            },
                        },
                    },
                },
            },
        },
        _ => Err(None),
    }
}

/// The `DNS` records in order; the first failing record decides.
pub open spec fn spec_dns_entries(items: Seq<JsonNode>) -> Result<
    Seq<(u8, IpAddress, Seq<char>, IpAddress)>,
    Option<Seq<u8>>,
>
    decreases items.len(),
{
    if items.len() == 0 {
        Ok(Seq::empty())
    } else {
        match spec_dns_entry(items[0]) {
            Err(e) => Err(e),
            Ok(t) => match spec_dns_entries(items.drop_first()) {
                Err(e) => Err(e),
                Ok(rest) => Ok(seq![t] + rest),
            },
        }
    }
}

/// One `SearchDomains` record: `Domain`, `ConfigSource`,
/// `ConfigProvider`, read in that order.
pub open spec fn spec_search_entry(n: JsonNode) -> Result<
    (Seq<char>, Seq<char>, IpAddress),
    Option<Seq<u8>>,
> {
    match n {
        JsonNode::Object(fs) => match spec_text_field(fs@, "Domain"@) {
            None => Err(None),
            Some(dom) => match spec_text_field(fs@, "ConfigSource"@) {
                None => Err(None),
                Some(src) => match obj_field(fs@, "ConfigProvider"@) {
                    None => Err(None),
                    Some(pn) => match spec_addr_field(pn) {
                        Err(e) => Err(e),
                        Ok(prov) => Ok((dom, src, prov)),
                    },
                },
            },
        },
        _ => Err(None),
    }
}

/// The `SearchDomains` records in order; the first failing record
/// decides.
pub open spec fn spec_search_entries(items: Seq<JsonNode>) -> Result<
    Seq<(Seq<char>, Seq<char>, IpAddress)>,
    Option<Seq<u8>>,
>
    decreases items.len(),
{
    if items.len() == 0 {
        Ok(Seq::empty())
    } else {
        match spec_search_entry(items[0]) {
            Err(e) => Err(e),
            Ok(t) => match spec_search_entries(items.drop_first()) {
                Err(e) => Err(e),
                Ok(rest) => Ok(seq![t] + rest),
            },
        }
    }
}

/// One `Addresses` record: `Family`, `PrefixLength` and `ConfigSource`
/// are required and checked in that order; only the decoded `Address` is
/// kept.
pub open spec fn spec_addr_entry(n: JsonNode) -> Result<IpAddress, Option<Seq<u8>>> {
    match n {
        JsonNode::Object(fs) => match spec_u8_field(fs@, "Family"@) {
            None => Err(None),
            Some(_) => match spec_u8_field(fs@, "PrefixLength"@) {
                None => Err(None),
                Some(_) => match spec_text_field(fs@, "ConfigSource"@) {
                    None => Err(None),
                    Some(_) => match obj_field(fs@, "Address"@) {
                        None => Err(None),
                        Some(an) => spec_addr_field(an),
                    },
                },
            },
        },
        _ => Err(None),
    }
}

/// The `Addresses` records in order; the first failing record decides.
pub open spec fn spec_addr_entries(items: Seq<JsonNode>) -> Result<
    Seq<IpAddress>,
    Option<Seq<u8>>,
>
    decreases items.len(),
{
    if items.len() == 0 {
        Ok(Seq::empty())
    } else {
        match spec_addr_entry(items[0]) {
            Err(e) => Err(e),
            Ok(a) => match spec_addr_entries(items.drop_first()) {
                Err(e) => Err(e),
                Ok(rest) => Ok(seq![a] + rest),
            },
        }
    }
}

/// The optional `DNS` field: absent or null is no value; an array is
/// decoded record by record; anything else fails.
pub open spec fn spec_dns_field(fields: Seq<(String, JsonNode)>) -> Result<
    Option<Seq<(u8, IpAddress, Seq<char>, IpAddress)>>,
    Option<Seq<u8>>,
> {
    match obj_field(fields, "DNS"@) {
        None => Ok(None),
        Some(JsonNode::Null) => Ok(None),
        Some(JsonNode::Array(items)) => match spec_dns_entries(items@) {
            Ok(v) => Ok(Some(v)),
            Err(e) => Err(e),
        },
        Some(_) => Err(None),
    }
}

/// The optional `SearchDomains` field, like the `DNS` field.
pub open spec fn spec_search_field(fields: Seq<(String, JsonNode)>) -> Result<
    Option<Seq<(Seq<char>, Seq<char>, IpAddress)>>,
    Option<Seq<u8>>,
> {
    match obj_field(fields, "SearchDomains"@) {
        None => Ok(None),
        Some(JsonNode::Null) => Ok(None),
        Some(JsonNode::Array(items)) => match spec_search_entries(items@) {
            Ok(v) => Ok(Some(v)),
            Err(e) => Err(e),
        },
        Some(_) => Err(None),
    }
}

/// The required `HardwareAddress` field: an array of octets, any length.
pub open spec fn spec_mac_field(fields: Seq<(String, JsonNode)>) -> Option<Seq<u8>> {
    match obj_field(fields, "HardwareAddress"@) {
        Some(JsonNode::Array(items)) => spec_bytes_of(items@),
        _ => None,
    }
}

/// The required `Addresses` field: an array of address records.
pub open spec fn spec_addrs_field(fields: Seq<(String, JsonNode)>) -> Result<
    Seq<IpAddress>,
    Option<Seq<u8>>,
> {
    match obj_field(fields, "Addresses"@) {
        Some(JsonNode::Array(items)) => spec_addr_entries(items@),
        _ => Err(None),
    }
}

/// The reading of the DNS records a snapshot holds.
pub open spec fn dns_records_view(v: Seq<NetworkdDnsConfig>) -> Seq<
    (u8, IpAddress, Seq<char>, IpAddress),
> {
    v.map_values(|c: NetworkdDnsConfig| (c.family, c.address, c.config_source@, c.config_provider))
}

/// The reading of the search-domain records a snapshot holds.
pub open spec fn search_records_view(v: Seq<SearchDomain>) -> Seq<
    (Seq<char>, Seq<char>, IpAddress),
> {
    v.map_values(|d: SearchDomain| (d.domain@, d.config_source@, d.config_provider))
}

/// The reading of the optional DNS list.
pub open spec fn opt_dns_view(o: Option<Vec<NetworkdDnsConfig>>) -> Option<
    Seq<(u8, IpAddress, Seq<char>, IpAddress)>,
> {
    match o {
        Some(v) => Some(dns_records_view(v@)),
        None => None,
    }
}

/// The reading of the optional search-domain list.
pub open spec fn opt_search_view(o: Option<Vec<SearchDomain>>) -> Option<
    Seq<(Seq<char>, Seq<char>, IpAddress)>,
> {
    match o {
        Some(v) => Some(search_records_view(v@)),
        None => None,
    }
}

/// The result a decode failure owes: a schema failure is
/// `StatusParseFailed`; a bad-length address is `BadAddressEncoding`
/// carrying exactly the offending octets.
pub open spec fn err_matches<T>(e: Option<Seq<u8>>, r: Result<T, NetdogError>) -> bool {
    match e {
        None => r matches Err(x) && x is StatusParseFailed,
        Some(b) => r matches Err(x) && (x matches NetdogError::BadAddressEncoding {
            bytes,
            ..
        } && bytes@ == b),
    }
}

/// What decoding a report text owes: the schema's fields are read in
/// order — `Name`, `DNS`, `SearchDomains`, `HardwareAddress`,
/// `Addresses` — the first failure decides the error, and on success the
/// snapshot reads exactly as the spec-level decoding of the named value
/// tree.
pub open spec fn status_decode_matches(s: Seq<char>, r: Result<NetworkdStatus, NetdogError>) -> bool {
    match json_tree_of(s) {
        None => r matches Err(x) && x is StatusParseFailed,
        Some(tree) => match tree {
            JsonNode::Object(fields) => match spec_name_field(fields@) {
                None => r matches Err(x) && x is StatusParseFailed,
                Some(nm) => match spec_dns_field(fields@) {
                    Err(e) => err_matches(e, r),
                    Ok(dnsv) => match spec_search_field(fields@) {
                        Err(e) => err_matches(e, r),
                        Ok(searchv) => match spec_mac_field(fields@) {
                            None => r matches Err(x) && x is StatusParseFailed,
                            Some(mac) => match spec_addrs_field(fields@) {
                                Err(e) => err_matches(e, r),
                                Ok(addrs) => r matches Ok(st) && st.name@ == nm && opt_dns_view(
                                    st.dns,
                                ) == dnsv && opt_search_view(st.search_domains) == searchv
                                    && st.mac_address@ == mac && st.addresses@ == addrs,
                            },
                        },
                    },
                },
            },
            _ => r matches Err(x) && x is StatusParseFailed,
        },
    }
}

impl NetworkdStatus {
    /// Decodes a status report, as the daemon's status query printed it,
    /// into a typed snapshot.  The whole behaviour — which texts succeed,
    /// which error each failure is, and the exact snapshot on success —
    /// is fixed by [`status_decode_matches`] over the named value tree.
    pub fn from_json_str(s: &str) -> (r: Result<NetworkdStatus, NetdogError>)
        ensures
            status_decode_matches(s@, r),
            r matches Ok(st) ==> st.name.wf(),
    {
        let node = match parse_json_document(s) {
            Some(n) => n,
            None => {
                return Err(NetdogError::StatusParseFailed);
            },
        };
        let fields = match node {
            JsonNode::Object(fields) => fields,
            _ => {
                return Err(NetdogError::StatusParseFailed);
            },
        };
        let name = match decode_name(&fields) {
            Ok(n) => n,
            Err(e) => {
                return Err(e);
            },
        };
        let dns = match decode_dns(&fields) {
            Ok(d) => d,
            Err(e) => {
                return Err(e);
            },
        };
        let search_domains = match decode_search(&fields) {
            Ok(d) => d,
            Err(e) => {
                return Err(e);
            },
        };
        let mac_address = match decode_mac(&fields) {
            Ok(m) => m,
            Err(e) => {
                return Err(e);
            },
        };
        let addresses = match decode_addresses(&fields) {
            Ok(a) => a,
            Err(e) => {
                return Err(e);
            },
        };
        Ok(NetworkdStatus { name, dns, search_domains, mac_address, addresses })
    }
}

/// Looks a key up among an object's fields.
fn get_field<'a>(fields: &'a Vec<(String, JsonNode)>, key: &str) -> (r: Option<&'a JsonNode>)
    ensures
        match r {
            Some(n) => obj_field(fields@, key@) == Some(*n),
            None => obj_field(fields@, key@) is None,
        },
{
    proof {
        assert(fields@.skip(0) =~= fields@);
    }
    let mut i: usize = 0;
    while i < fields.len()
        invariant
            0 <= i <= fields@.len(),
            obj_field(fields@, key@) == obj_field(fields@.skip(i as int), key@),
        decreases fields@.len() - i,
    {
        proof {
            assert(fields@.skip(i as int)[0] == fields@[i as int]);
            assert(fields@.skip(i as int).drop_first() =~= fields@.skip(i + 1 as int));
        }
        if str_eq(fields[i].0.as_str(), key) {
            return Some(&fields[i].1);
        }
        i += 1;
    }
    None
}

/// Decodes the `Name` field.
fn decode_name(fields: &Vec<(String, JsonNode)>) -> (r: Result<InterfaceName, NetdogError>)
    ensures
        match spec_name_field(fields@) {
            Some(nm) => r matches Ok(n) && n@ == nm && n.wf(),
            None => r matches Err(e) && e is StatusParseFailed,
        },
{
    match get_field(fields, "Name") {
        Some(node) => match node {
            JsonNode::Text(t) => match InterfaceName::try_from(t.as_str()) {
                Ok(n) => Ok(n),
                Err(_) => Err(NetdogError::StatusParseFailed),
            },
            _ => Err(NetdogError::StatusParseFailed),
        },
        None => Err(NetdogError::StatusParseFailed),
    }
}

/// Reads octets from `items[i..]`.
fn bytes_from(items: &Vec<JsonNode>, i: usize) -> (r: Option<Vec<u8>>)
    requires
        i <= items@.len(),
    ensures
        match r {
            Some(v) => spec_bytes_of(items@.skip(i as int)) == Some(v@),
            None => spec_bytes_of(items@.skip(i as int)) is None,
        },
    decreases items@.len() - i,
{
    if i == items.len() {
        let out: Vec<u8> = Vec::new();
        proof {
            assert(out@ =~= Seq::<u8>::empty());
        }
        return Some(out);
    }
    proof {
        assert(items@.skip(i as int)[0] == items@[i as int]);
        assert(items@.skip(i as int).drop_first() =~= items@.skip(i + 1 as int));
    }
    match &items[i] {
        JsonNode::UInt(u) => {
            if *u > 255 {
                return None;
            }
            match bytes_from(items, i + 1) {
                Some(mut rest) => {
                    let mut out: Vec<u8> = Vec::new();
                    out.push(*u as u8);
                    out.append(&mut rest);
                    Some(out)
                },
                None => None,
            }
        },
        _ => None,
    }
}

/// Decodes one byte-array address value.
fn addr_from_node(n: &JsonNode) -> (r: Result<IpAddress, NetdogError>)
    ensures
        match spec_addr_field(*n) {
            Ok(a) => r matches Ok(x) && x == a,
            Err(e) => err_matches(e, r),
        },
{
    match n {
        JsonNode::Array(items) => {
            proof {
                assert(items@.skip(0) =~= items@);
            }
            match bytes_from(items, 0) {
            Some(b) => {
                let ghost bv = b@;
                match ipaddr_from_vec(b) {
                    Ok(a) => {
                        proof {
                            assert(addr_represents(a, bv));
                            lemma_addr_of(a, bv);
                        }
                        Ok(a)
                    },
                    Err(e) => Err(e),
                }
            },
            None => Err(NetdogError::StatusParseFailed),
        }
        },
        _ => Err(NetdogError::StatusParseFailed),
    }
}

/// Reads a required integer field that must fit in an octet.
fn u8_field(fields: &Vec<(String, JsonNode)>, key: &str) -> (r: Option<u8>)
    ensures
        r == spec_u8_field(fields@, key@),
{
    match get_field(fields, key) {
        Some(node) => match node {
            JsonNode::UInt(u) => {
                if *u <= 255 {
                    Some(*u as u8)
                } else {
                    None
                }
            },
            _ => None,
        },
        None => None,
    }
}

/// Reads a required string field.
fn text_field(fields: &Vec<(String, JsonNode)>, key: &str) -> (r: Option<String>)
    ensures
        match r {
            Some(t) => spec_text_field(fields@, key@) == Some(t@),
            None => spec_text_field(fields@, key@) is None,
        },
{
    match get_field(fields, key) {
        Some(node) => match node {
            JsonNode::Text(t) => Some(t.clone()),
            _ => None,
        },
        None => None,
    }
}

/// Decodes one `DNS` record.
fn dns_entry_from(n: &JsonNode) -> (r: Result<NetworkdDnsConfig, NetdogError>)
    ensures
        match spec_dns_entry(*n) {
            Ok(t) => r matches Ok(c) && (c.family, c.address, c.config_source@, c.config_provider)
                == t,
            Err(e) => err_matches(e, r),
        },
{
    match n {
        JsonNode::Object(fs) => {
            let family = match u8_field(fs, "Family") {
                Some(f) => f,
                None => {
                    return Err(NetdogError::StatusParseFailed);
                },
            };
            let address = match get_field(fs, "Address") {
                Some(an) => {
                    match addr_from_node(an) {
                        Ok(a) => a,
                        Err(e) => {
                            return Err(e);
                        },
                    }
                },
                None => {
                    return Err(NetdogError::StatusParseFailed);
                },
            };
            let config_source = match text_field(fs, "ConfigSource") {
                Some(s) => s,
                None => {
                    return Err(NetdogError::StatusParseFailed);
                },
            };
            let config_provider = match get_field(fs, "ConfigProvider") {
                Some(pn) => {
                    match addr_from_node(pn) {
                        Ok(a) => a,
                        Err(e) => {
                            return Err(e);
                        },
                    }
                },
                None => {
                    return Err(NetdogError::StatusParseFailed);
                },
            };
            Ok(NetworkdDnsConfig { family, address, config_source, config_provider })
        },
        _ => Err(NetdogError::StatusParseFailed),
    }
}

/// Decodes the `DNS` records from `items[i..]`.
fn dns_list_from(items: &Vec<JsonNode>, i: usize) -> (r: Result<Vec<NetworkdDnsConfig>, NetdogError>)
    requires
        i <= items@.len(),
    ensures
        match spec_dns_entries(items@.skip(i as int)) {
            Ok(v) => r matches Ok(out) && dns_records_view(out@) == v,
            Err(e) => err_matches(e, r),
        },
    decreases items@.len() - i,
{
    if i == items.len() {
        let out: Vec<NetworkdDnsConfig> = Vec::new();
        proof {
            assert(dns_records_view(out@) =~= Seq::<(u8, IpAddress, Seq<char>, IpAddress)>::empty());
        }
        return Ok(out);
    }
    proof {
        assert(items@.skip(i as int)[0] == items@[i as int]);
        assert(items@.skip(i as int).drop_first() =~= items@.skip(i + 1 as int));
    }
    let entry = match dns_entry_from(&items[i]) {
        Ok(c) => c,
        Err(e) => {
            return Err(e);
        },
    };
    match dns_list_from(items, i + 1) {
        Ok(mut rest) => {
            let ghost t = (entry.family, entry.address, entry.config_source@, entry.config_provider);
            let ghost restv = rest@;
            let mut out: Vec<NetworkdDnsConfig> = Vec::new();
            out.push(entry);
            out.append(&mut rest);
            proof {
                assert(dns_records_view(out@) =~= seq![t] + dns_records_view(restv));
            }
            Ok(out)
        },
        Err(e) => Err(e),
    }
}

/// Decodes one `SearchDomains` record.
fn search_entry_from(n: &JsonNode) -> (r: Result<SearchDomain, NetdogError>)
    ensures
        match spec_search_entry(*n) {
            Ok(t) => r matches Ok(d) && (d.domain@, d.config_source@, d.config_provider) == t,
            Err(e) => err_matches(e, r),
        },
{
    match n {
        JsonNode::Object(fs) => {
            let domain = match text_field(fs, "Domain") {
                Some(s) => s,
                None => {
                    return Err(NetdogError::StatusParseFailed);
                },
            };
            let config_source = match text_field(fs, "ConfigSource") {
                Some(s) => s,
                None => {
                    return Err(NetdogError::StatusParseFailed);
                },
            };
            let config_provider = match get_field(fs, "ConfigProvider") {
                Some(pn) => {
                    match addr_from_node(pn) {
                        Ok(a) => a,
                        Err(e) => {
                            return Err(e);
                        },
                    }
                },
                None => {
                    return Err(NetdogError::StatusParseFailed);
                },
            };
            Ok(SearchDomain { domain, config_source, config_provider })
        },
        _ => Err(NetdogError::StatusParseFailed),
    }
}

/// Decodes the `SearchDomains` records from `items[i..]`.
fn search_list_from(items: &Vec<JsonNode>, i: usize) -> (r: Result<Vec<SearchDomain>, NetdogError>)
    requires
        i <= items@.len(),
    ensures
        match spec_search_entries(items@.skip(i as int)) {
            Ok(v) => r matches Ok(out) && search_records_view(out@) == v,
            Err(e) => err_matches(e, r),
        },
    decreases items@.len() - i,
{
    if i == items.len() {
        let out: Vec<SearchDomain> = Vec::new();
        proof {
            assert(search_records_view(out@) =~= Seq::<(Seq<char>, Seq<char>, IpAddress)>::empty());
        }
        return Ok(out);
    }
    proof {
        assert(items@.skip(i as int)[0] == items@[i as int]);
        assert(items@.skip(i as int).drop_first() =~= items@.skip(i + 1 as int));
    }
    let entry = match search_entry_from(&items[i]) {
        Ok(d) => d,
        Err(e) => {
            return Err(e);
        },
    };
    match search_list_from(items, i + 1) {
        Ok(mut rest) => {
            let ghost t = (entry.domain@, entry.config_source@, entry.config_provider);
            let ghost restv = rest@;
            let mut out: Vec<SearchDomain> = Vec::new();
            out.push(entry);
            out.append(&mut rest);
            proof {
                assert(search_records_view(out@) =~= seq![t] + search_records_view(restv));
            }
            Ok(out)
        },
        Err(e) => Err(e),
    }
}

/// Decodes one `Addresses` record.
fn addr_entry_from(n: &JsonNode) -> (r: Result<IpAddress, NetdogError>)
    ensures
        match spec_addr_entry(*n) {
            Ok(a) => r matches Ok(x) && x == a,
            Err(e) => err_matches(e, r),
        },
{
    match n {
        JsonNode::Object(fs) => {
            if u8_field(fs, "Family").is_none() {
                return Err(NetdogError::StatusParseFailed);
            }
            if u8_field(fs, "PrefixLength").is_none() {
                return Err(NetdogError::StatusParseFailed);
            }
            if text_field(fs, "ConfigSource").is_none() {
                return Err(NetdogError::StatusParseFailed);
            }
            match get_field(fs, "Address") {
                Some(an) => addr_from_node(an),
                None => Err(NetdogError::StatusParseFailed),
            }
        },
        _ => Err(NetdogError::StatusParseFailed),
    }
}

/// Decodes the `Addresses` records from `items[i..]`.
fn addr_list_from(items: &Vec<JsonNode>, i: usize) -> (r: Result<Vec<IpAddress>, NetdogError>)
    requires
        i <= items@.len(),
    ensures
        match spec_addr_entries(items@.skip(i as int)) {
            Ok(v) => r matches Ok(out) && out@ == v,
            Err(e) => err_matches(e, r),
        },
    decreases items@.len() - i,
{
    if i == items.len() {
        let out: Vec<IpAddress> = Vec::new();
        proof {
            assert(out@ =~= Seq::<IpAddress>::empty());
        }
        return Ok(out);
    }
    proof {
        assert(items@.skip(i as int)[0] == items@[i as int]);
        assert(items@.skip(i as int).drop_first() =~= items@.skip(i + 1 as int));
    }
    let a = match addr_entry_from(&items[i]) {
        Ok(a) => a,
        Err(e) => {
            return Err(e);
        },
    };
    match addr_list_from(items, i + 1) {
        Ok(mut rest) => {
            let ghost restv = rest@;
            let mut out: Vec<IpAddress> = Vec::new();
            out.push(a);
            out.append(&mut rest);
            proof {
                assert(out@ =~= seq![a] + restv);
            }
            Ok(out)
        },
        Err(e) => Err(e),
    }
}

/// Decodes the optional `DNS` field.
fn decode_dns(fields: &Vec<(String, JsonNode)>) -> (r: Result<
    Option<Vec<NetworkdDnsConfig>>,
    NetdogError,
>)
    ensures
        match spec_dns_field(fields@) {
            Ok(v) => r matches Ok(d) && opt_dns_view(d) == v,
            Err(e) => err_matches(e, r),
        },
{
    match get_field(fields, "DNS") {
        None => Ok(None),
        Some(node) => match node {
            JsonNode::Null => Ok(None),
            JsonNode::Array(items) => {
                proof {
                    assert(items@.skip(0) =~= items@);
                }
                match dns_list_from(items, 0) {
                    Ok(v) => Ok(Some(v)),
                    Err(e) => Err(e),
                }
            },
            _ => Err(NetdogError::StatusParseFailed),
        },
    }
}

/// Decodes the optional `SearchDomains` field.
fn decode_search(fields: &Vec<(String, JsonNode)>) -> (r: Result<
    Option<Vec<SearchDomain>>,
    NetdogError,
>)
    ensures
        match spec_search_field(fields@) {
            Ok(v) => r matches Ok(d) && opt_search_view(d) == v,
            Err(e) => err_matches(e, r),
        },
{
    match get_field(fields, "SearchDomains") {
        None => Ok(None),
        Some(node) => match node {
            JsonNode::Null => Ok(None),
            JsonNode::Array(items) => {
                proof {
                    assert(items@.skip(0) =~= items@);
                }
                match search_list_from(items, 0) {
                    Ok(v) => Ok(Some(v)),
                    Err(e) => Err(e),
                }
            },
            _ => Err(NetdogError::StatusParseFailed),
        },
    }
}

/// Decodes the required `HardwareAddress` field.
fn decode_mac(fields: &Vec<(String, JsonNode)>) -> (r: Result<Vec<u8>, NetdogError>)
    ensures
        match spec_mac_field(fields@) {
            Some(mac) => r matches Ok(v) && v@ == mac,
            None => r matches Err(e) && e is StatusParseFailed,
        },
{
    match get_field(fields, "HardwareAddress") {
        Some(node) => match node {
            JsonNode::Array(items) => {
                proof {
                    assert(items@.skip(0) =~= items@);
                }
                match bytes_from(items, 0) {
                    Some(v) => Ok(v),
                    None => Err(NetdogError::StatusParseFailed),
                }
            },
            _ => Err(NetdogError::StatusParseFailed),
        },
        None => Err(NetdogError::StatusParseFailed),
    }
}

/// Decodes the required `Addresses` field.
fn decode_addresses(fields: &Vec<(String, JsonNode)>) -> (r: Result<Vec<IpAddress>, NetdogError>)
    ensures
        match spec_addrs_field(fields@) {
            Ok(v) => r matches Ok(out) && out@ == v,
            Err(e) => err_matches(e, r),
        },
{
    match get_field(fields, "Addresses") {
        Some(node) => match node {
            JsonNode::Array(items) => {
                proof {
                    assert(items@.skip(0) =~= items@);
                }
                addr_list_from(items, 0)
            },
            _ => Err(NetdogError::StatusParseFailed),
        },
        None => Err(NetdogError::StatusParseFailed),
    }
}

/// The index of the first IPv4 address, or -1 if there is none.
pub open spec fn first_v4_index(s: Seq<IpAddress>) -> int
    decreases s.len(),
{
    if s.len() == 0 {
        -1
    } else if s[0] is V4 {
        0
    } else {
        let r = first_v4_index(s.drop_first());
        if r < 0 {
            -1
        } else {
            1 + r
        }
    }
}

/// Shape of [`first_v4_index`]: -1 exactly when no IPv4 address occurs,
/// else the position of the first one.
pub proof fn lemma_first_v4(s: Seq<IpAddress>)
    ensures
        (first_v4_index(s) == -1) <==> (forall|j: int| 0 <= j < s.len() ==> !(s[j] is V4)),
        first_v4_index(s) >= 0 ==> first_v4_index(s) < s.len() && s[first_v4_index(s)] is V4 && (
        forall|j: int| 0 <= j < first_v4_index(s) ==> !(s[j] is V4)),
    decreases s.len(),
{
    if s.len() == 0 {
    } else if s[0] is V4 {
    } else {
        lemma_first_v4(s.drop_first());
        let r = first_v4_index(s.drop_first());
        if r == -1 {
            assert forall|j: int| 0 <= j < s.len() implies !(s[j] is V4) by {
                if j > 0 {
                    assert(s.drop_first()[j - 1] == s[j]);
                }
            }
        } else {
            assert(first_v4_index(s) == 1 + r);
            assert(s.drop_first()[r] == s[r + 1]);
            assert forall|j: int| 0 <= j < 1 + r implies !(s[j] is V4) by {
                if j > 0 {
                    assert(s.drop_first()[j - 1] == s[j]);
                }
            }
        }
        if forall|j: int| 0 <= j < s.len() ==> !(s[j] is V4) {
            assert forall|j: int| 0 <= j < s.drop_first().len() implies !(s.drop_first()[j]
                is V4) by {
                assert(s.drop_first()[j] == s[j + 1]);
            }
            assert(first_v4_index(s.drop_first()) == -1);
        }
    }
}

impl NetworkdStatus {
    /// Selects the primary address: with no addresses this fails; with
    /// exactly one that address is primary, whatever its family; with more
    /// than one the first IPv4 address in list order is primary, and there
    /// being none is a failure — deliberately, IPv6 addresses are no
    /// fallback in that case.
    pub fn primary_address(&self) -> (r: Result<IpAddress, NetdogError>)
        ensures
            self.addresses@.len() == 0 ==> (r matches Err(e)
                && e matches NetdogError::NoAddressForInterface { interface } && interface@
                == self.name@),
            self.addresses@.len() == 1 ==> (r matches Ok(a) && a == self.addresses@[0]),
            self.addresses@.len() > 1 && first_v4_index(self.addresses@) >= 0 ==> (r matches Ok(a)
                && a == self.addresses@[first_v4_index(self.addresses@)]),
            self.addresses@.len() > 1 && first_v4_index(self.addresses@) < 0 ==> (r matches Err(e)
                && e matches NetdogError::NoAddressForInterface { interface } && interface@
                == self.name@),
    {
        let n = self.addresses.len();
        if n == 0 {
            return Err(NetdogError::NoAddressForInterface { interface: self.name.to_text() });
        }
        if n == 1 {
            return Ok(self.addresses[0]);
        }
        proof {
            lemma_first_v4(self.addresses@);
        }
        let mut k: usize = 0;
        while k < n
            invariant
                n == self.addresses@.len(),
                0 <= k <= n,
                forall|j: int| 0 <= j < k ==> !(self.addresses@[j] is V4),
            decreases n - k,
        {
            if self.addresses[k].is_ipv4() {
                proof {
                    lemma_first_v4(self.addresses@);
                    let fi = first_v4_index(self.addresses@);
                    assert(fi >= 0);
                    assert(fi == k as int) by {
                        if fi < k as int {
                            assert(self.addresses@[fi] is V4);
                        }
                        if fi > k as int {
                            assert(!(self.addresses@[k as int] is V4));
                        }
                    }
                }
                return Ok(self.addresses[k]);
            }
            k += 1;
        }
        proof {
            lemma_first_v4(self.addresses@);
        }
        Err(NetdogError::NoAddressForInterface { interface: self.name.to_text() })
    }
}

} // verus!
