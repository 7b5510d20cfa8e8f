//! Server settings of the two proxy kinds, and how they are read from a
//! downloaded JSON configuration.
use vstd::prelude::*;

use crate::error::{PassageError, PassageErrorView};
use crate::json::{
    JsonDoc, field_string, field_u16, has_many_elements, json_array_only_first_element_warning,
    json_get_field_to_string, json_get_field_to_u16, json_parses,
};
use crate::json::{json_str_at, json_u64_at};
use crate::text::{lemma_rsplit_once, parse_u16, parse_u16_str, rsplit_once, rsplit_once_char};

verus! {

broadcast use vstd::string::group_string_axioms;

/// The settings of one Hysteria2 server.
#[derive(Debug)]
pub struct InfoHysteria2 {
    pub server: String,
    pub port: u16,
    pub password: String,
}

/// The settings of one Mieru server.
#[derive(Debug)]
pub struct InfoMieru {
    pub server: String,
    pub port: u16,
    pub username: String,
    pub password: String,
}

/// Abstract Hysteria2 settings: server, port, password.
pub type Hysteria2View = (Seq<char>, u16, Seq<char>);

/// Abstract Mieru settings: server, port, user name, password.
pub type MieruView = (Seq<char>, u16, Seq<char>, Seq<char>);

impl View for InfoHysteria2 {
    type V = Hysteria2View;

    open spec fn view(&self) -> Hysteria2View {
        (self.server@, self.port, self.password@)
    }
}

impl View for InfoMieru {
    type V = MieruView;

    open spec fn view(&self) -> MieruView {
        (self.server@, self.port, self.username@, self.password@)
    }
}

/// The servers collected for one proxy kind.
#[derive(Debug)]
pub enum ServInfo {
    Hysteria2(Vec<InfoHysteria2>),
    Mieru(Vec<InfoMieru>),
}

/// The abstract value of a [`ServInfo`].
pub enum ServInfoView {
    Hysteria2(Seq<Hysteria2View>),
    Mieru(Seq<MieruView>),
}

impl View for ServInfo {
    type V = ServInfoView;

    open spec fn view(&self) -> ServInfoView {
        match self {
            ServInfo::Hysteria2(v) => ServInfoView::Hysteria2(v@.map_values(|i: InfoHysteria2| i@)),
            ServInfo::Mieru(v) => ServInfoView::Mieru(v@.map_values(|i: InfoMieru| i@)),
        }
    }
}

/// The array pointers whose extra elements a Mieru configuration ignores.
pub open spec fn mieru_array_pointers() -> Seq<Seq<char>> {
    seq!["/profiles"@, "/profiles/0/servers"@]
}

/// The array pointers of `text` that hold more than one element, of those a
/// Mieru configuration reads only the first element of.
pub open spec fn mieru_warnings(text: Seq<char>) -> Seq<Seq<char>> {
    mieru_array_pointers().filter(|p: Seq<char>| has_many_elements(text, p))
}

/// The Mieru settings of the configuration `text`, or the first field that is missing.
pub open spec fn mieru_fields(text: Seq<char>) -> Result<MieruView, PassageErrorView> {
    match field_string(text, "/profiles/0/servers/0/ipAddress"@) {
        Err(e) => Err(e),
        Ok(server) => match field_u16(text, "/profiles/0/servers/0/portBindings/0/port"@) {
            Err(e) => Err(e),
            Ok(port) => match field_string(text, "/profiles/0/user/name"@) {
                Err(e) => Err(e),
                Ok(username) => match field_string(text, "/profiles/0/user/password"@) {
                    Err(e) => Err(e),
                    Ok(password) => Ok((server, port, username, password)),
                },
            },
        },
    }
}

/// The Hysteria2 settings of the configuration `text`: `/server` holds
/// `address:port` (split at the last `:`), `/auth` the password.
pub open spec fn hysteria2_fields(text: Seq<char>) -> Result<Hysteria2View, PassageErrorView> {
    match field_string(text, "/server"@) {
        Err(e) => Err(e),
        Ok(value) => match rsplit_once(value, ':') {
            None => Err(PassageErrorView::BadServerFormat(value)),
            Some((addr, port_str)) => match parse_u16(port_str) {
                None => Err(PassageErrorView::PortParse),
                Some(port) => match field_string(text, "/auth"@) {
                    Err(e) => Err(e),
                    Ok(password) => Ok((addr, port, password)),
                },
            },
        },
    }
}

/// The outcome of [`ServInfo::load_config_field`] on settings `serv` and
/// configuration `text`: the new settings and the result.
pub open spec fn load_outcome(serv: ServInfoView, text: Seq<char>) -> (ServInfoView, Result<(), PassageErrorView>) {
    if !json_parses(text) {
        (serv, Err(PassageErrorView::JsonParse))
    } else {
        match serv {
            ServInfoView::Mieru(v) => match mieru_fields(text) {
                Ok(m) => (ServInfoView::Mieru(v.push(m)), Ok(())),
                Err(e) => (serv, Err(e)),
            },
            ServInfoView::Hysteria2(v) => match hysteria2_fields(text) {
                Ok(h) => (ServInfoView::Hysteria2(v.push(h)), Ok(())),
                Err(e) => (serv, Err(e)),
            },
        }
    }
}

/// The warnings that [`ServInfo::load_config_field`] reports.
pub open spec fn load_warnings(serv: ServInfoView, text: Seq<char>) -> Seq<Seq<char>> {
    if json_parses(text) && serv is Mieru {
        mieru_warnings(text)
    } else {
        Seq::empty()
    }
}

fn mieru_fields_of(json: &JsonDoc) -> (r: Result<InfoMieru, PassageError>)
    ensures
        r matches Ok(m) ==> mieru_fields(json@) == Ok::<MieruView, PassageErrorView>(m@),
        r matches Err(e) ==> mieru_fields(json@) == Err::<MieruView, PassageErrorView>(e@),
{
    let server = json_get_field_to_string(json, "/profiles/0/servers/0/ipAddress")?;
    let port = json_get_field_to_u16(json, "/profiles/0/servers/0/portBindings/0/port")?;
    let username = json_get_field_to_string(json, "/profiles/0/user/name")?;
    let password = json_get_field_to_string(json, "/profiles/0/user/password")?;
    Ok(InfoMieru { server, port, username, password })
}

fn hysteria2_fields_of(json: &JsonDoc) -> (r: Result<InfoHysteria2, PassageError>)
    ensures
        r matches Ok(h) ==> hysteria2_fields(json@) == Ok::<Hysteria2View, PassageErrorView>(h@),
        r matches Err(e) ==> hysteria2_fields(json@) == Err::<Hysteria2View, PassageErrorView>(e@),
{
    let value = json_get_field_to_string(json, "/server")?;
    let (server, port_str) = match rsplit_once_char(value.as_str(), ':') {
        Some(parts) => parts,
        None => {
            return Err(PassageError::BadServerFormat(value));
        },
    };
    let port = match parse_u16_str(port_str.as_str()) {
        Some(p) => p,
        None => {
            return Err(PassageError::PortParse);
        },
    };
    let password = json_get_field_to_string(json, "/auth")?;
    Ok(InfoHysteria2 { server, port, password })
}

impl ServInfo {
    /// An empty list of Mieru servers.
    pub fn new_mieru() -> (s: Self)
        ensures
            s@ == ServInfoView::Mieru(Seq::empty()),
    {
        let v: Vec<InfoMieru> = Vec::new();
        assert(v@.map_values(|i: InfoMieru| i@) =~= Seq::<MieruView>::empty());
        ServInfo::Mieru(v)
    }

    /// An empty list of Hysteria2 servers.
    pub fn new_hysteria2() -> (s: Self)
        ensures
            s@ == ServInfoView::Hysteria2(Seq::empty()),
    {
        let v: Vec<InfoHysteria2> = Vec::new();
        assert(v@.map_values(|i: InfoHysteria2| i@) =~= Seq::<Hysteria2View>::empty());
        ServInfo::Hysteria2(v)
    }

    /// Reads the settings of one server of `serv`'s kind from the JSON
    /// configuration `content` and appends them to `serv`. For a Mieru
    /// configuration, the pointers of arrays of which only the first element is
    /// used although they hold more are appended to `warnings` first. On an
    /// error `serv` is left as it was.
    pub fn load_config_field(serv: &mut ServInfo, content: &String, warnings: &mut Vec<String>) -> (r:
        Result<(), PassageError>)
        ensures
            final(serv)@ == load_outcome(old(serv)@, content@).0,
            result_matches(r, load_outcome(old(serv)@, content@).1),
            final(warnings)@.map_values(|w: String| w@) == old(warnings)@.map_values(|w: String| w@)
                + load_warnings(old(serv)@, content@),
    {
        let json = match JsonDoc::parse(content.as_str()) {
            Ok(j) => j,
            Err(e) => {
                assert(warnings@.map_values(|w: String| w@) =~= old(warnings)@.map_values(
                    |w: String| w@,
                ) + Seq::empty());
                return Err(e);
            },
        };
        match serv {
            ServInfo::Mieru(info) => {
                let ghost before = warnings@.map_values(|w: String| w@);
                let first = json_array_only_first_element_warning(&json, "/profiles");
                if first {
                    warnings.push("/profiles".to_string());
                }
                let second = json_array_only_first_element_warning(&json, "/profiles/0/servers");
                if second {
                    warnings.push("/profiles/0/servers".to_string());
                }
                proof {
                    let ps = mieru_array_pointers();
                    let f = |p: Seq<char>| has_many_elements(json@, p);
                    assert(ps.take(1).filter(f) =~= if first { seq![ps[0]] } else { Seq::empty() })
                        by {
                        reveal_with_fuel(Seq::filter, 2);
                        assert(ps.take(1).drop_last() =~= Seq::<Seq<char>>::empty());
                    }
                    reveal_with_fuel(Seq::filter, 2);
                    assert(ps.take(2).drop_last() =~= ps.take(1));
                    assert(ps.take(2) =~= ps);
                    assert(mieru_warnings(json@) =~= (if first { seq![ps[0]] } else { Seq::empty() })
                        + (if second { seq![ps[1]] } else { Seq::empty() }));
                    assert(warnings@.map_values(|w: String| w@) =~= before + mieru_warnings(json@));
                }
                match mieru_fields_of(&json) {
                    Ok(m) => {
                        let ghost old_info = info@;
                        info.push(m);
                        assert(info@.map_values(|i: InfoMieru| i@) =~= old_info.map_values(
                            |i: InfoMieru| i@,
                        ).push(m@));
                        Ok(())
                    },
                    Err(e) => Err(e),
                }
            },
            ServInfo::Hysteria2(info) => {
                assert(warnings@.map_values(|w: String| w@) =~= old(warnings)@.map_values(
                    |w: String| w@,
                ) + Seq::empty());
                match hysteria2_fields_of(&json) {
                    Ok(h) => {
                        let ghost old_info = info@;
                        info.push(h);
                        assert(info@.map_values(|i: InfoHysteria2| i@) =~= old_info.map_values(
                            |i: InfoHysteria2| i@,
                        ).push(h@));
                        Ok(())
                    },
                    Err(e) => Err(e),
                }
            },
        }
    }
}

/// `r` is the outcome `expected`, errors compared by their abstract value.
pub open spec fn result_matches(r: Result<(), PassageError>, expected: Result<(), PassageErrorView>) -> bool {
    match r {
        Ok(()) => expected is Ok,
        Err(e) => expected == Err::<(), PassageErrorView>(e@),
    }
}

/// The number of servers in `serv`.
pub open spec fn server_count(serv: ServInfoView) -> nat {
    match serv {
        ServInfoView::Mieru(v) => v.len(),
        ServInfoView::Hysteria2(v) => v.len(),
    }
}

/// Loading a configuration either succeeds and appends exactly one server to
/// the list, which keeps its kind and its earlier servers, or fails and leaves
/// the list as it was.
pub proof fn lemma_load_appends_one_or_keeps(serv: ServInfoView, text: Seq<char>)
    ensures
        load_outcome(serv, text).1 is Err ==> load_outcome(serv, text).0 == serv,
        load_outcome(serv, text).1 is Ok ==> match (serv, load_outcome(serv, text).0) {
            (ServInfoView::Mieru(a), ServInfoView::Mieru(b)) => b.len() == a.len() + 1 && b.take(
                a.len() as int,
            ) == a,
            (ServInfoView::Hysteria2(a), ServInfoView::Hysteria2(b)) => b.len() == a.len() + 1
                && b.take(a.len() as int) == a,
            _ => false,
        },
{
    match serv {
        ServInfoView::Mieru(a) => {
            if let Ok(m) = mieru_fields(text) {
                assert(a.push(m).take(a.len() as int) =~= a);
            }
        },
        ServInfoView::Hysteria2(a) => {
            if let Ok(h) = hysteria2_fields(text) {
                assert(a.push(h).take(a.len() as int) =~= a);
            }
        },
    }
}

/// A successful load appends the server that the configuration describes. For
/// Mieru: the address at `/profiles/0/servers/0/ipAddress`, the port at
/// `/profiles/0/servers/0/portBindings/0/port` cut to 16 bits, the user name
/// at `/profiles/0/user/name` and the password at `/profiles/0/user/password`,
/// however many profiles and servers the configuration lists. For Hysteria2:
/// `/server` is the appended address, a `:` and a port without `:` that parses
/// as the appended port, and the password is at `/auth`.
pub proof fn lemma_load_reads_the_configured_server(serv: ServInfoView, text: Seq<char>)
    requires
        load_outcome(serv, text).1 is Ok,
    ensures
        match (serv, load_outcome(serv, text).0) {
            (ServInfoView::Mieru(a), ServInfoView::Mieru(b)) => {
                &&& b.len() == a.len() + 1
                &&& b.last().0 == json_str_at(text, "/profiles/0/servers/0/ipAddress"@)->0
                &&& b.last().1 == (json_u64_at(text, "/profiles/0/servers/0/portBindings/0/port"@)->0) as u16
                &&& b.last().2 == json_str_at(text, "/profiles/0/user/name"@)->0
                &&& b.last().3 == json_str_at(text, "/profiles/0/user/password"@)->0
            },
            (ServInfoView::Hysteria2(a), ServInfoView::Hysteria2(b)) => {
                &&& b.len() == a.len() + 1
                &&& json_str_at(text, "/server"@) is Some
                &&& exists|port_text: Seq<char>|
                    {
                        &&& json_str_at(text, "/server"@)->0 == b.last().0 + seq![':'] + port_text
                        &&& forall|i: int| 0 <= i < port_text.len() ==> port_text[i] != ':'
                        &&& parse_u16(port_text) == Some(b.last().1)
                    }
                &&& b.last().2 == json_str_at(text, "/auth"@)->0
            },
            _ => false,
        },
{
    if let ServInfoView::Hysteria2(a) = serv {
        let value = json_str_at(text, "/server"@)->0;
        lemma_rsplit_once(value, ':');
        let (addr, port_text) = rsplit_once(value, ':')->0;
        assert(value == addr + seq![':'] + port_text);
    }
}

} // verus!
