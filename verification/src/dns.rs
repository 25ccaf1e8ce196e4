//! Effective DNS settings: gathering them from the static configuration,
//! backfilling from a DHCP lease or a live status snapshot, and rendering
//! the resolver configuration text.
//!
//! Precedence is strict and field-wise atomic: a field the static
//! configuration sets is taken from it entirely; a field it leaves unset is
//! copied from the lease or the status, never merged element by element.

use rand::seq::SliceRandom;
use vstd::multiset::Multiset;
use vstd::prelude::*;

use crate::errors::NetdogError;
use crate::ip::{parse_ip_text, spec_ip_of_text, IpAddress};
use crate::networkd_status::{NetworkdDnsConfig, NetworkdStatus, SearchDomain};
use crate::strutil::str_eq;
use crate::toml_ext::{parse_toml_document, toml_tree_of, TomlNode};

verus! {

/// The DNS facts a DHCP lease may carry: an optional set of nameserver
/// addresses and an optional ordered search list.
#[derive(Debug, Clone, Default, PartialEq)]
pub struct LeaseInfo {
    pub dns_servers: Option<Vec<IpAddress>>,
    pub dns_search: Option<Vec<String>>,
}

/// The effective DNS configuration of one synthesis invocation.
#[derive(Debug, Default, PartialEq)]
pub struct DnsSettings {
    pub nameservers: Option<Vec<IpAddress>>,
    pub search: Option<Vec<String>>,
}

/// The nameserver view of an optional address list.
pub open spec fn opt_addrs_view(o: Option<Vec<IpAddress>>) -> Option<Seq<IpAddress>> {
    match o {
        Some(v) => Some(v@),
        None => None,
    }
}

/// The text view of an optional domain list.
pub open spec fn opt_domains_view(o: Option<Vec<String>>) -> Option<Seq<Seq<char>>> {
    match o {
        Some(v) => Some(v@.map_values(|s: String| s@)),
        None => None,
    }
}

/// No address occurs twice.
pub open spec fn no_dups(s: Seq<IpAddress>) -> bool {
    forall|i: int, j: int| 0 <= i < j < s.len() ==> s[i] != s[j]
}

/// The deduplication of an address list: each address once, at the
/// position of its first occurrence.
pub open spec fn spec_dedup(s: Seq<IpAddress>) -> Seq<IpAddress>
    decreases s.len(),
{
    if s.len() == 0 {
        Seq::empty()
    } else {
        let front = spec_dedup(s.drop_last());
        if front.contains(s.last()) {
            front
        } else {
            front.push(s.last())
        }
    }
}

/// A deduplicated list has no duplicates and exactly the members of the
/// original.
pub proof fn lemma_dedup(s: Seq<IpAddress>)
    ensures
        no_dups(spec_dedup(s)),
        forall|a: IpAddress| #[trigger] spec_dedup(s).contains(a) <==> s.contains(a),
    decreases s.len(),
{
    if s.len() == 0 {
        assert forall|a: IpAddress| #[trigger] spec_dedup(s).contains(a) implies s.contains(a) by {
        }
    } else {
        lemma_dedup(s.drop_last());
        let front = spec_dedup(s.drop_last());
        assert forall|a: IpAddress| #[trigger] spec_dedup(s).contains(a) <==> s.contains(a) by {
            if spec_dedup(s).contains(a) {
                if front.contains(a) {
                    assert(s.drop_last().contains(a));
                    let i = choose|i: int| 0 <= i < s.drop_last().len() && s.drop_last()[i] == a;
                    assert(s[i] == a);
                } else {
                    assert(a == s.last());
                    assert(s[s.len() - 1] == a);
                }
            }
            if s.contains(a) {
                let i = choose|i: int| 0 <= i < s.len() && s[i] == a;
                if i < s.len() - 1 {
                    assert(s.drop_last()[i] == a);
                    assert(s.drop_last().contains(a));
                    assert(front.contains(a));
                    if !front.contains(s.last()) {
                        assert(front.push(s.last()).contains(a)) by {
                            let k = choose|k: int| 0 <= k < front.len() && front[k] == a;
                            assert(front.push(s.last())[k] == a);
                        }
                    }
                } else {
                    assert(a == s.last());
                    if front.contains(a) {
                    } else {
                        assert(front.push(a)[front.len() as int] == a);
                    }
                }
            }
        }
        if !front.contains(s.last()) {
            assert forall|i: int, j: int|
                0 <= i < j < spec_dedup(s).len() implies spec_dedup(s)[i] != spec_dedup(s)[j] by {
                if j < front.len() {
                } else {
                    assert(spec_dedup(s)[j] == s.last());
                    assert(spec_dedup(s)[i] == front[i]);
                    assert(front.contains(front[i]));
                }
            }
        }
    }
}

/// Whether an address occurs in a list.
fn contains_addr(v: &Vec<IpAddress>, a: &IpAddress) -> (b: bool)
    ensures
        b == v@.contains(*a),
{
    let mut k: usize = 0;
    while k < v.len()
        invariant
            0 <= k <= v@.len(),
            forall|j: int| 0 <= j < k ==> v@[j] != *a,
        decreases v@.len() - k,
    {
        if v[k].addr_eq(a) {
            return true;
        }
        k += 1;
    }
    false
}

/// Copies an address list, dropping every repeated occurrence.
fn dedup_addresses(v: &Vec<IpAddress>) -> (r: Vec<IpAddress>)
    ensures
        r@ == spec_dedup(v@),
{
    let mut out: Vec<IpAddress> = Vec::new();
    let mut i: usize = 0;
    while i < v.len()
        invariant
            0 <= i <= v@.len(),
            out@ == spec_dedup(v@.take(i as int)),
        decreases v@.len() - i,
    {
        proof {
            assert(v@.take(i + 1 as int).drop_last() =~= v@.take(i as int));
            assert(v@.take(i + 1 as int).last() == v@[i as int]);
        }
        if !contains_addr(&out, &v[i]) {
            out.push(v[i]);
        }
        i += 1;
    }
    proof {
        assert(v@.take(v@.len() as int) =~= v@);
    }
    out
}

/// Copies an address list unchanged.
fn copy_addresses(v: &Vec<IpAddress>) -> (r: Vec<IpAddress>)
    ensures
        r@ == v@,
{
    let mut out: Vec<IpAddress> = Vec::new();
    let mut i: usize = 0;
    while i < v.len()
        invariant
            0 <= i <= v@.len(),
            out@ == v@.take(i as int),
        decreases v@.len() - i,
    {
        out.push(v[i]);
        proof {
            assert(out@ =~= v@.take(i + 1 as int));
        }
        i += 1;
    }
    proof {
        assert(v@.take(v@.len() as int) =~= v@);
    }
    out
}

/// Copies a domain list; the copy reads as the original.
fn copy_domains(v: &Vec<String>) -> (r: Vec<String>)
    ensures
        r@.map_values(|s: String| s@) == v@.map_values(|s: String| s@),
{
    let mut out: Vec<String> = Vec::new();
    let mut i: usize = 0;
    while i < v.len()
        invariant
            0 <= i <= v@.len(),
            out@.len() == i,
            forall|j: int| 0 <= j < i ==> out@[j]@ == v@[j]@,
        decreases v@.len() - i,
    {
        out.push(v[i].clone());
        i += 1;
    }
    proof {
        assert(out@.map_values(|s: String| s@) =~= v@.map_values(|s: String| s@));
    }
    out
}

impl LeaseInfo {
    /// The nameserver view.
    pub open spec fn ns(&self) -> Option<Seq<IpAddress>> {
        opt_addrs_view(self.dns_servers)
    }

    /// The search-list view.
    pub open spec fn search_view(&self) -> Option<Seq<Seq<char>>> {
        opt_domains_view(self.dns_search)
    }

    /// A lease's nameservers are a set: no duplicates.
    pub open spec fn wf(&self) -> bool {
        match self.dns_servers {
            Some(v) => no_dups(v@),
            None => true,
        }
    }
}

impl NetworkdStatus {
    /// The nameserver addresses the snapshot carries, deduplicated, in
    /// first-occurrence order.
    pub open spec fn dns_addresses(&self) -> Option<Seq<IpAddress>> {
        match self.dns {
            Some(v) => Some(spec_dedup(v@.map_values(|c: NetworkdDnsConfig| c.address))),
            None => None,
        }
    }

    /// The search domains the snapshot carries, in order.
    pub open spec fn search_domain_texts(&self) -> Option<Seq<Seq<char>>> {
        match self.search_domains {
            Some(v) => Some(v@.map_values(|d: SearchDomain| d.domain@)),
            None => None,
        }
    }
}

impl DnsSettings {
    /// The nameserver view.
    pub open spec fn ns(&self) -> Option<Seq<IpAddress>> {
        opt_addrs_view(self.nameservers)
    }

    /// The search-list view.
    pub open spec fn search_view(&self) -> Option<Seq<Seq<char>>> {
        opt_domains_view(self.search)
    }

    /// The nameservers are a set: no duplicates.
    pub open spec fn wf(&self) -> bool {
        match self.nameservers {
            Some(v) => no_dups(v@),
            None => true,
        }
    }

    /// Settings with both fields unset.
    pub fn unset() -> (r: DnsSettings)
        ensures
            r.ns() is None,
            r.search_view() is None,
            r.wf(),
    {
        DnsSettings { nameservers: None, search: None }
    }

    /// Fills each field that is unset from the lease; a field that is set
    /// keeps its value, whatever the lease carries.
    pub fn merge_lease(&mut self, lease: &LeaseInfo)
        ensures
            old(self).ns() is Some ==> final(self).ns() == old(self).ns(),
            old(self).ns() is None ==> final(self).ns() == lease.ns(),
            old(self).search_view() is Some ==> final(self).search_view() == old(
                self,
            ).search_view(),
            old(self).search_view() is None ==> final(self).search_view() == lease.search_view(),
    {
        if self.nameservers.is_none() {
            self.nameservers = match &lease.dns_servers {
                Some(v) => Some(copy_addresses(v)),
                None => None,
            };
        }
        if self.search.is_none() {
            self.search = match &lease.dns_search {
                Some(v) => Some(copy_domains(v)),
                None => None,
            };
        }
    }

    /// Fills each field that is unset from the status snapshot; a field
    /// that is set keeps its value, whatever the snapshot carries.
    /// Nameservers taken from the snapshot are deduplicated.
    pub fn merge_status(&mut self, status: &NetworkdStatus)
        ensures
            old(self).ns() is Some ==> final(self).ns() == old(self).ns(),
            old(self).ns() is None ==> final(self).ns() == status.dns_addresses(),
            old(self).search_view() is Some ==> final(self).search_view() == old(
                self,
            ).search_view(),
            old(self).search_view() is None ==> final(self).search_view()
                == status.search_domain_texts(),
    {
        if self.nameservers.is_none() {
            self.nameservers = match &status.dns {
                Some(entries) => {
                    let mut collected: Vec<IpAddress> = Vec::new();
                    let mut i: usize = 0;
                    while i < entries.len()
                        invariant
                            0 <= i <= entries@.len(),
                            collected@ =~= entries@.take(i as int).map_values(
                                |c: NetworkdDnsConfig| c.address,
                            ),
                        decreases entries@.len() - i,
                    {
                        collected.push(entries[i].address);
                        proof {
                            assert(collected@ =~= entries@.take(i + 1 as int).map_values(
                                |c: NetworkdDnsConfig| c.address,
                            ));
                        }
                        i += 1;
                    }
                    proof {
                        assert(entries@.take(entries@.len() as int) =~= entries@);
                    }
                    Some(dedup_addresses(&collected))
                },
                None => None,
            };
        }
        if self.search.is_none() {
            self.search = match &status.search_domains {
                Some(entries) => {
                    let mut collected: Vec<String> = Vec::new();
                    let mut i: usize = 0;
                    while i < entries.len()
                        invariant
                            0 <= i <= entries@.len(),
                            collected@.len() == i,
                            forall|j: int| 0 <= j < i ==> collected@[j]@ == entries@[j].domain@,
                        decreases entries@.len() - i,
                    {
                        collected.push(entries[i].domain.clone());
                        i += 1;
                    }
                    proof {
                        assert(collected@.map_values(|s: String| s@) =~= entries@.map_values(
                            |d: SearchDomain| d.domain@,
                        ));
                    }
                    Some(collected)
                },
                None => None,
            };
        }
    }

    /// Reads the static configuration document's two optional keys,
    /// `name-servers` and `search-list`.
    ///
    /// An absent file (`None`) or an empty one is the expected pre-boot
    /// state and yields fully unset settings.  For a non-empty text the
    /// whole behaviour is fixed over the named value tree: a document
    /// whose two keys decode — each absent, or a list of IP address texts
    /// respectively strings — yields exactly the decoded, deduplicated
    /// settings, and everything else fails with `ConfigParseFailed`.
    pub fn from_config_str(config: Option<&str>) -> (r: Result<DnsSettings, NetdogError>)
        ensures
            config is None ==> (r matches Ok(d) && d.ns() is None && d.search_view() is None),
            (config matches Some(t) && t@.len() == 0) ==> (r matches Ok(d) && d.ns() is None
                && d.search_view() is None),
            config matches Some(t) ==> (t@.len() > 0 ==> (match spec_config_of(t@) {
                Some(cfg) => r matches Ok(d) && d.ns() == cfg.0 && d.search_view() == cfg.1,
                None => r matches Err(e) && e is ConfigParseFailed,
            })),
            r matches Ok(d) ==> d.wf(),
            r matches Err(e) ==> e is ConfigParseFailed,
    {
        let text = match config {
            Some(t) => t,
            None => {
                return Ok(DnsSettings::unset());
            },
        };
        if text.unicode_len() == 0 {
            return Ok(DnsSettings::unset());
        }
        let node = match parse_toml_document(text) {
            Some(d) => d,
            None => {
                return Err(NetdogError::ConfigParseFailed);
            },
        };
        let fields = match node {
            TomlNode::Table(fields) => fields,
            _ => {
                return Err(NetdogError::ConfigParseFailed);
            },
        };
        let nameservers = match config_nameservers(&fields) {
            Ok(ns) => ns,
            Err(e) => {
                return Err(e);
            },
        };
        let search = match config_search_list(&fields) {
            Ok(sl) => sl,
            Err(e) => {
                return Err(e);
            },
        };
        Ok(DnsSettings { nameservers, search })
    }

    /// Gathers settings from the static configuration, backfilled from the
    /// DHCP lease if one is given.  With no configuration and no lease the
    /// result is fully unset; that is no error.  A field the configuration
    /// decodes to a value keeps it; a field it leaves unset is the
    /// lease's.
    pub fn from_config_or_lease(config: Option<&str>, lease: Option<&LeaseInfo>) -> (r: Result<
        DnsSettings,
        NetdogError,
    >)
        requires
            lease matches Some(l) ==> l.wf(),
        ensures
            config is None ==> r is Ok,
            (config matches Some(t) && t@.len() == 0) ==> r is Ok,
            (config is None || (config matches Some(t) && t@.len() == 0)) ==> (r matches Ok(d) && (
            match lease {
                Some(l) => d.ns() == l.ns() && d.search_view() == l.search_view(),
                None => d.ns() is None && d.search_view() is None,
            })),
            config matches Some(t) ==> (t@.len() > 0 ==> (match spec_config_of(t@) {
                Some(cfg) => r matches Ok(d) && d.ns() == fill(
                    cfg.0,
                    match lease {
                        Some(l) => l.ns(),
                        None => None,
                    },
                ) && d.search_view() == fill(
                    cfg.1,
                    match lease {
                        Some(l) => l.search_view(),
                        None => None,
                    },
                ),
                None => r matches Err(e) && e is ConfigParseFailed,
            })),
            r matches Ok(d) ==> d.wf(),
            r matches Err(e) ==> e is ConfigParseFailed,
    {
        let mut settings = match DnsSettings::from_config_str(config) {
            Ok(s) => s,
            Err(e) => {
                return Err(e);
            },
        };
        match lease {
            Some(l) => {
                settings.merge_lease(l);
            },
            None => {},
        }
        Ok(settings)
    }

    /// Gathers settings from the static configuration, backfilled from the
    /// live status snapshot.  With no configuration, the result carries
    /// exactly what the snapshot does; a field the configuration decodes
    /// to a value keeps it, and a field it leaves unset is the
    /// snapshot's.
    pub fn from_config_or_status(config: Option<&str>, status: &NetworkdStatus) -> (r: Result<
        DnsSettings,
        NetdogError,
    >)
        ensures
            config is None ==> r is Ok,
            (config matches Some(t) && t@.len() == 0) ==> r is Ok,
            (config is None || (config matches Some(t) && t@.len() == 0)) ==> (r matches Ok(d)
                && d.ns() == status.dns_addresses() && d.search_view()
                == status.search_domain_texts()),
            config matches Some(t) ==> (t@.len() > 0 ==> (match spec_config_of(t@) {
                Some(cfg) => r matches Ok(d) && d.ns() == fill(cfg.0, status.dns_addresses())
                    && d.search_view() == fill(cfg.1, status.search_domain_texts()),
                None => r matches Err(e) && e is ConfigParseFailed,
            })),
            r matches Ok(d) ==> d.wf(),
            r matches Err(e) ==> e is ConfigParseFailed,
    {
        let mut settings = match DnsSettings::from_config_str(config) {
            Ok(s) => s,
            Err(e) => {
                return Err(e);
            },
        };
        settings.merge_status(status);
        proof {
            match &status.dns {
                Some(v) => {
                    lemma_dedup(v@.map_values(|c: NetworkdDnsConfig| c.address));
                },
                None => {},
            }
        }
        Ok(settings)
    }
}

/// Takes the set field, or the other source's value where it is unset.
pub open spec fn fill<A>(primary: Option<A>, fallback: Option<A>) -> Option<A> {
    if primary is Some {
        primary
    } else {
        fallback
    }
}

/// The field under `key` in a table's fields; keys are unique.
pub open spec fn toml_field(fields: Seq<(String, TomlNode)>, key: Seq<char>) -> Option<TomlNode>
    decreases fields.len(),
{
    if fields.len() == 0 {
        None
    } else if fields[0].0@ == key {
        Some(fields[0].1)
    } else {
        toml_field(fields.drop_first(), key)
    }
}

/// The addresses of a `name-servers` list: every element must be a
/// string in the IP address grammar.
pub open spec fn spec_ns_list(items: Seq<TomlNode>) -> Option<Seq<IpAddress>>
    decreases items.len(),
{
    if items.len() == 0 {
        Some(Seq::empty())
    } else {
        match items[0] {
            TomlNode::Text(t) => match spec_ip_of_text(t@) {
                Some(a) => match spec_ns_list(items.drop_first()) {
                    Some(rest) => Some(seq![a] + rest),
                    None => None,
                },
                None => None,
            },
            _ => None,
        }
    }
}

/// The texts of a `search-list` list: every element must be a string.
pub open spec fn spec_domain_list(items: Seq<TomlNode>) -> Option<Seq<Seq<char>>>
    decreases items.len(),
{
    if items.len() == 0 {
        Some(Seq::empty())
    } else {
        match items[0] {
            TomlNode::Text(t) => match spec_domain_list(items.drop_first()) {
                Some(rest) => Some(seq![t@] + rest),
                None => None,
            },
            _ => None,
        }
    }
}

/// The decoded `name-servers` key: absent is unset (inner `None`); a list
/// of IP address texts is the deduplicated addresses; anything else is
/// the outer `None`, a parse failure.
pub open spec fn spec_cfg_ns(fields: Seq<(String, TomlNode)>) -> Option<Option<Seq<IpAddress>>> {
    match toml_field(fields, "name-servers"@) {
        None => Some(None),
        Some(TomlNode::Array(items)) => match spec_ns_list(items@) {
            Some(l) => Some(Some(spec_dedup(l))),
            None => None,
        },
        Some(_) => None,
    }
}

/// The decoded `search-list` key, like `spec_cfg_ns` but a plain string
/// list, kept in order.
pub open spec fn spec_cfg_search(fields: Seq<(String, TomlNode)>) -> Option<
    Option<Seq<Seq<char>>>,
> {
    match toml_field(fields, "search-list"@) {
        None => Some(None),
        Some(TomlNode::Array(items)) => match spec_domain_list(items@) {
            Some(l) => Some(Some(l)),
            None => None,
        },
        Some(_) => None,
    }
}

/// The decoding of a whole non-empty configuration text over the named
/// value tree: `Some` of the two decoded fields exactly when the document
/// parses and both keys decode, `None` — a parse failure — otherwise.
pub open spec fn spec_config_of(t: Seq<char>) -> Option<
    (Option<Seq<IpAddress>>, Option<Seq<Seq<char>>>),
> {
    match toml_tree_of(t) {
        Some(TomlNode::Table(fields)) => match (spec_cfg_ns(fields@), spec_cfg_search(fields@)) {
            (Some(ns), Some(sl)) => Some((ns, sl)),
            _ => None,
        },
        _ => None,
    }
}

/// Looks a key up among a table's fields.
fn get_toml_field<'a>(fields: &'a Vec<(String, TomlNode)>, key: &str) -> (r: Option<&'a TomlNode>)
    ensures
        match r {
            Some(n) => toml_field(fields@, key@) == Some(*n),
            None => toml_field(fields@, key@) is None,
        },
{
    proof {
        assert(fields@.skip(0) =~= fields@);
    }
    let mut i: usize = 0;
    while i < fields.len()
        invariant
            0 <= i <= fields@.len(),
            toml_field(fields@, key@) == toml_field(fields@.skip(i as int), key@),
        decreases fields@.len() - i,
    {
        proof {
            assert(fields@.skip(i as int)[0] == fields@[i as int]);
            assert(fields@.skip(i as int).drop_first() =~= fields@.skip(i + 1 as int));
        }
        if str_eq(fields[i].0.as_str(), key) {
            return Some(&fields[i].1);
        }
        i += 1;
    }
    None
}

/// Reads the addresses of `items[i..]` as `name-servers` entries.
fn ns_list_from(items: &Vec<TomlNode>, i: usize) -> (r: Option<Vec<IpAddress>>)
    requires
        i <= items@.len(),
    ensures
        match r {
            Some(v) => spec_ns_list(items@.skip(i as int)) == Some(v@),
            None => spec_ns_list(items@.skip(i as int)) is None,
        },
    decreases items@.len() - i,
{
    if i == items.len() {
        let out: Vec<IpAddress> = Vec::new();
        proof {
            assert(out@ =~= Seq::<IpAddress>::empty());
        }
        return Some(out);
    }
    proof {
        assert(items@.skip(i as int)[0] == items@[i as int]);
        assert(items@.skip(i as int).drop_first() =~= items@.skip(i + 1 as int));
    }
    match &items[i] {
        TomlNode::Text(t) => {
            match parse_ip_text(t.as_str()) {
                Some(a) => {
                    match ns_list_from(items, i + 1) {
                        Some(mut rest) => {
                            let ghost restv = rest@;
                            let mut out: Vec<IpAddress> = Vec::new();
                            out.push(a);
                            out.append(&mut rest);
                            proof {
                                assert(out@ =~= seq![a] + restv);
                            }
                            Some(out)
                        },
                        None => None,
                    }
                },
                None => None,
            }
        },
        _ => None,
    }
}

/// Reads the texts of `items[i..]` as `search-list` entries.
fn domain_list_from(items: &Vec<TomlNode>, i: usize) -> (r: Option<Vec<String>>)
    requires
        i <= items@.len(),
    ensures
        match r {
            Some(v) => spec_domain_list(items@.skip(i as int)) == Some(
                v@.map_values(|s: String| s@),
            ),
            None => spec_domain_list(items@.skip(i as int)) is None,
        },
    decreases items@.len() - i,
{
    if i == items.len() {
        let out: Vec<String> = Vec::new();
        proof {
            assert(out@.map_values(|s: String| s@) =~= Seq::<Seq<char>>::empty());
        }
        return Some(out);
    }
    proof {
        assert(items@.skip(i as int)[0] == items@[i as int]);
        assert(items@.skip(i as int).drop_first() =~= items@.skip(i + 1 as int));
    }
    match &items[i] {
        TomlNode::Text(t) => {
            match domain_list_from(items, i + 1) {
                Some(mut rest) => {
                    let ghost tv = t@;
                    let ghost restv = rest@;
                    let mut out: Vec<String> = Vec::new();
                    out.push(t.clone());
                    out.append(&mut rest);
                    proof {
                        assert(out@.map_values(|s: String| s@) =~= seq![tv] + restv.map_values(
                            |s: String| s@,
                        ));
                    }
                    Some(out)
                },
                None => None,
            }
        },
        _ => None,
    }
}

/// Decodes the `name-servers` key.
fn config_nameservers(fields: &Vec<(String, TomlNode)>) -> (r: Result<
    Option<Vec<IpAddress>>,
    NetdogError,
>)
    ensures
        match spec_cfg_ns(fields@) {
            Some(v) => r matches Ok(o) && opt_addrs_view(o) == v && (o matches Some(vec)
                ==> no_dups(vec@)),
            None => r matches Err(e) && e is ConfigParseFailed,
        },
{
    match get_toml_field(fields, "name-servers") {
        None => Ok(None),
        Some(node) => match node {
            TomlNode::Array(items) => {
                proof {
                    assert(items@.skip(0) =~= items@);
                }
                match ns_list_from(items, 0) {
                    Some(l) => {
                        let out = dedup_addresses(&l);
                        proof {
                            lemma_dedup(l@);
                        }
                        Ok(Some(out))
                    },
                    None => Err(NetdogError::ConfigParseFailed),
                }
            },
            _ => Err(NetdogError::ConfigParseFailed),
        },
    }
}

/// Decodes the `search-list` key.
fn config_search_list(fields: &Vec<(String, TomlNode)>) -> (r: Result<
    Option<Vec<String>>,
    NetdogError,
>)
    ensures
        match spec_cfg_search(fields@) {
            Some(v) => r matches Ok(o) && opt_domains_view(o) == v,
            None => r matches Err(e) && e is ConfigParseFailed,
        },
{
    match get_toml_field(fields, "search-list") {
        None => Ok(None),
        Some(node) => match node {
            TomlNode::Array(items) => {
                proof {
                    assert(items@.skip(0) =~= items@);
                }
                match domain_list_from(items, 0) {
                    Some(l) => Ok(Some(l)),
                    None => Err(NetdogError::ConfigParseFailed),
                }
            },
            _ => Err(NetdogError::ConfigParseFailed),
        },
    }
}

/// The domains joined by single spaces, in order.
pub open spec fn join_spaces(d: Seq<Seq<char>>) -> Seq<char>
    decreases d.len(),
{
    if d.len() == 0 {
        Seq::empty()
    } else if d.len() == 1 {
        d[0]
    } else {
        d[0] + " "@ + join_spaces(d.drop_first())
    }
}

/// One `nameserver` line per address, in order.
pub open spec fn ns_lines(servers: Seq<IpAddress>) -> Seq<char>
    decreases servers.len(),
{
    if servers.len() == 0 {
        Seq::empty()
    } else {
        "nameserver "@ + servers[0].spec_text() + "\n"@ + ns_lines(servers.drop_first())
    }
}

/// The resolver configuration text: a `search` line when the search list
/// is set, then one `nameserver` line per server in the given order.
pub open spec fn spec_resolv_conf(search: Option<Seq<Seq<char>>>, servers: Seq<IpAddress>) -> Seq<
    char,
> {
    (match search {
        None => Seq::empty(),
        Some(d) => "search "@ + join_spaces(d) + "\n"@,
    }) + ns_lines(servers)
}

/// The string `"search "`.
fn search_kw() -> (r: &'static str)
    ensures
        r@ == "search "@,
{
    "search "
}

/// The string `"nameserver "`.
fn nameserver_kw() -> (r: &'static str)
    ensures
        r@ == "nameserver "@,
{
    "nameserver "
}

/// The string `" "`.
fn space_str() -> (r: &'static str)
    ensures
        r@ == " "@,
{
    " "
}

/// The string `"\n"`.
fn newline_str() -> (r: &'static str)
    ensures
        r@ == "\n"@,
{
    "\n"
}

/// Renders the domains from `from` on, joined by spaces.
fn join_spaces_exec(domains: &Vec<String>, from: usize) -> (r: String)
    requires
        from <= domains@.len(),
    ensures
        r@ == join_spaces(domains@.skip(from as int).map_values(|s: String| s@)),
    decreases domains@.len() - from,
{
    let ghost dv = domains@.skip(from as int).map_values(|s: String| s@);
    if from == domains.len() {
        let r = String::new();
        proof {
            assert(dv.len() == 0);
        }
        r
    } else if from + 1 == domains.len() {
        let r = domains[from].clone();
        proof {
            assert(dv.len() == 1);
            assert(dv[0] == domains@[from as int]@);
        }
        r
    } else {
        let mut r = domains[from].clone();
        r.append(space_str());
        let rest = join_spaces_exec(domains, from + 1);
        r.append(rest.as_str());
        proof {
            assert(dv[0] == domains@[from as int]@);
            assert(dv.drop_first() =~= domains@.skip(from + 1 as int).map_values(
                |s: String| s@,
            ));
            assert(r@ == dv[0] + " "@ + join_spaces(dv.drop_first()));
        }
        r
    }
}

/// Renders one `nameserver` line per address from `from` on.
fn ns_lines_exec(servers: &Vec<IpAddress>, from: usize) -> (r: String)
    requires
        from <= servers@.len(),
    ensures
        r@ == ns_lines(servers@.skip(from as int)),
    decreases servers@.len() - from,
{
    if from == servers.len() {
        let r = String::new();
        proof {
            assert(servers@.skip(from as int).len() == 0);
        }
        r
    } else {
        let mut r = nameserver_kw().to_owned();
        let addr_text = servers[from].to_text();
        r.append(addr_text.as_str());
        r.append(newline_str());
        let rest = ns_lines_exec(servers, from + 1);
        r.append(rest.as_str());
        proof {
            let sv = servers@.skip(from as int);
            assert(sv[0] == servers@[from as int]);
            assert(sv.drop_first() =~= servers@.skip(from + 1 as int));
            assert(r@ == "nameserver "@ + sv[0].spec_text() + "\n"@ + ns_lines(sv.drop_first()));
        }
        r
    }
}

impl DnsSettings {
    /// The multiset of nameservers these settings carry; unset and empty
    /// alike carry none.
    pub open spec fn ns_multiset(&self) -> Multiset<IpAddress> {
        match self.nameservers {
            Some(v) => v@.to_multiset(),
            None => Multiset::empty(),
        }
    }

    /// Renders the resolver configuration text: the `search` line exactly
    /// when the search list is set, and one `nameserver` line per
    /// nameserver — in an unspecified order, so that no server is
    /// systematically favoured, but always exactly the nameservers held,
    /// each as often as held.  Unset and empty fields alike produce no
    /// lines: fully unset settings render as the empty document.
    pub fn render_resolv_conf(&self) -> (r: String)
        ensures
            exists|order: Seq<IpAddress>|
                order.to_multiset() == self.ns_multiset() && r@ == spec_resolv_conf(
                    self.search_view(),
                    order,
                ),
    {
        broadcast use vstd::seq_lib::group_to_multiset_ensures;

        let ordered: Vec<IpAddress> = match &self.nameservers {
            Some(v) => {
                let mut c = copy_addresses(v);
                shuffle_addresses(&mut c);
                c
            },
            None => Vec::new(),
        };
        let mut r = String::new();
        match &self.search {
            Some(domains) => {
                r.append(search_kw());
                let joined = join_spaces_exec(domains, 0);
                r.append(joined.as_str());
                r.append(newline_str());
                proof {
                    assert(domains@.skip(0) =~= domains@);
                }
            },
            None => {},
        }
        let lines = ns_lines_exec(&ordered, 0);
        r.append(lines.as_str());
        proof {
            assert(ordered@.skip(0) =~= ordered@);
            if self.nameservers is None {
                assert(Seq::<IpAddress>::empty().to_multiset() =~= Multiset::empty());
            }
            assert(ordered@.to_multiset() == self.ns_multiset() && r@ == spec_resolv_conf(
                self.search_view(),
                ordered@,
            ));
        }
        r
    }
}

/// Law: with exactly two distinct nameservers, the order the renderer
/// picks is one of exactly the two permutations — never another ordering,
/// never a repeated or missing entry.
pub proof fn lemma_two_nameserver_permutations(
    d: DnsSettings,
    a: IpAddress,
    b: IpAddress,
    order: Seq<IpAddress>,
)
    requires
        d.ns() == Some(seq![a, b]),
        a != b,
        order.to_multiset() == d.ns_multiset(),
    ensures
        order == seq![a, b] || order == seq![b, a],
{
    broadcast use vstd::seq_lib::group_to_multiset_ensures;

    let held = seq![a, b];
    assert(held.to_multiset() == order.to_multiset());
    assert(held.drop_last() =~= seq![a]);
    assert(seq![a].drop_last() =~= Seq::<IpAddress>::empty());
    assert(seq![a] =~= Seq::<IpAddress>::empty().push(a));
    assert(held =~= seq![a].push(b));
    assert(seq![a].to_multiset() =~= Multiset::empty().insert(a)) by {
        assert(Seq::<IpAddress>::empty().to_multiset() =~= Multiset::empty());
    }
    assert(held.to_multiset() =~= Multiset::empty().insert(a).insert(b));
    assert(held.to_multiset().count(a) == 1);
    assert(held.to_multiset().count(b) == 1);
    assert(held.to_multiset().len() == 2);
    assert(order.to_multiset().len() == 2);
    assert(order.len() == 2);
    assert(order.contains(order[0]));
    assert(held.to_multiset().count(order[0]) > 0);
    assert(order[0] == a || order[0] == b);
    assert(order.remove(0).to_multiset() =~= order.to_multiset().remove(order[0]));
    assert(order.remove(0) =~= seq![order[1]]);
    assert(seq![order[1]].to_multiset() =~= Multiset::empty().insert(order[1]));
    if order[0] == a {
        assert(order.to_multiset().remove(a).count(b) == 1);
        assert(order[1] == b);
        assert(order =~= seq![a, b]);
    } else {
        assert(order.to_multiset().remove(b).count(a) == 1);
        assert(order[1] == a);
        assert(order =~= seq![b, a]);
    }
}

/// Law: settings with both fields unset render as the empty document.
/// Whatever nameserver order the renderer may pick, settings that carry no
/// search list and no nameservers produce no lines at all.
pub proof fn lemma_unset_renders_empty(d: DnsSettings, order: Seq<IpAddress>)
    requires
        d.ns() is None,
        d.search_view() is None,
        order.to_multiset() == d.ns_multiset(),
    ensures
        spec_resolv_conf(d.search_view(), order) == Seq::<char>::empty(),
{
    broadcast use vstd::seq_lib::group_to_multiset_ensures;

    assert(order.to_multiset().len() == 0);
    assert(order.len() == 0);
    assert(spec_resolv_conf(d.search_view(), order) =~= Seq::<char>::empty());
}

/// Relies on rand's SliceRandom::shuffle, which permutes the slice in
/// place, picking the permutation at random; only the contents, not the
/// order, can be promised of the result.
#[verifier::external_body]
fn shuffle_addresses(v: &mut Vec<IpAddress>)
    ensures
        final(v)@.to_multiset() == old(v)@.to_multiset(),
{
    v.shuffle(&mut rand::rng());
}

} // verus!
