//! The configuration record of a plugin and its TOML form.
use vstd::prelude::*;
use crate::address::{
    ServerAddress,
    address_text,
    read_address,
    v4_text,
    v6_denotes,
    v6_form,
    hex_join,
    format_address,
    parse_address,
};
use crate::toml_table::{
    table_entries,
    toml_text,
    toml_parse,
    new_table,
    insert_string,
    lookup_string,
    parse_table,
    render_table,
};

verus! {

/// One plugin's identity, installed version and update server.
#[derive(Clone, Debug, PartialEq, Eq)]
pub struct PluginConfig {
    pub name: String,
    pub version: String,
    pub server_ip: ServerAddress,
}

pub ghost struct PluginConfigView {
    pub name: Seq<char>,
    pub version: Seq<char>,
    pub server_ip: ServerAddress,
}

impl View for PluginConfig {
    type V = PluginConfigView;

    open spec fn view(&self) -> PluginConfigView {
        PluginConfigView { name: self.name@, version: self.version@, server_ip: self.server_ip }
    }
}

/// Why a configuration could not be read.
#[derive(Clone, Copy, Debug, PartialEq, Eq)]
pub enum DecodeError {
    /// The text is not a TOML document.
    Syntax,
    /// `name`, `version` or `server_ip` is absent or not a string.
    MissingField,
    /// `server_ip` is not a server address.
    InvalidAddress,
}

pub open spec fn name_key() -> Seq<char> {
    seq!['n', 'a', 'm', 'e']
}

pub open spec fn version_key() -> Seq<char> {
    seq!['v', 'e', 'r', 's', 'i', 'o', 'n']
}

pub open spec fn server_ip_key() -> Seq<char> {
    seq!['s', 'e', 'r', 'v', 'e', 'r', '_', 'i', 'p']
}

/// The entries of the table that holds a configuration.
pub open spec fn config_entries(c: PluginConfigView) -> Map<Seq<char>, Option<Seq<char>>> {
    Map::empty().insert(name_key(), Some(c.name)).insert(version_key(), Some(c.version)).insert(
        server_ip_key(),
        Some(address_text(c.server_ip)),
    )
}

/// The string stored under `k`, if any.
pub open spec fn string_at(m: Map<Seq<char>, Option<Seq<char>>>, k: Seq<char>) -> Option<
    Seq<char>,
> {
    if m.contains_key(k) {
        m[k]
    } else {
        None
    }
}

/// What reading the table `m` gives. All three fields must be strings, and
/// other keys are ignored; the address is what `read_address` reads from
/// the `server_ip` text. Every IPv4 text and every IPv6 text form of
/// `v6_denotes` gives exactly its address.
pub open spec fn decodes_to(
    m: Map<Seq<char>, Option<Seq<char>>>,
    r: Result<PluginConfigView, DecodeError>,
) -> bool {
    let name = string_at(m, name_key());
    let version = string_at(m, version_key());
    let ip = string_at(m, server_ip_key());
    if name is None || version is None || ip is None {
        r == Err::<PluginConfigView, DecodeError>(DecodeError::MissingField)
    } else {
        &&& r == match read_address(ip->0) {
            Some(a) => Ok::<PluginConfigView, DecodeError>(
                PluginConfigView { name: name->0, version: version->0, server_ip: a },
            ),
            None => Err(DecodeError::InvalidAddress),
        }
        &&& forall|o: [u8; 4]| #[trigger] v4_text(o) == ip->0 ==> r == Ok::<
            PluginConfigView,
            DecodeError,
        >(
            PluginConfigView {
                name: name->0,
                version: version->0,
                server_ip: ServerAddress::V4(o),
            },
        )
        &&& forall|g: [u16; 8]| #[trigger] v6_denotes(ip->0, g@) ==> r == Ok::<
            PluginConfigView,
            DecodeError,
        >(
            PluginConfigView {
                name: name->0,
                version: version->0,
                server_ip: ServerAddress::V6(g),
            },
        )
    }
}

/// What reading the TOML document `text` may give.
pub open spec fn text_decodes_to(text: Seq<char>, r: Result<PluginConfigView, DecodeError>) -> bool {
    match toml_parse(text) {
        None => r == Err::<PluginConfigView, DecodeError>(DecodeError::Syntax),
        Some(m) => decodes_to(m, r),
    }
}

pub open spec fn result_view(r: Result<PluginConfig, DecodeError>) -> Result<
    PluginConfigView,
    DecodeError,
> {
    match r {
        Ok(c) => Ok(c@),
        Err(e) => Err(e),
    }
}

/// Reading the entries that encoding a configuration produces gives back
/// exactly that configuration.
pub proof fn lemma_entries_round_trip(c: PluginConfigView, r: Result<PluginConfigView, DecodeError>)
    requires
        decodes_to(config_entries(c), r),
    ensures
        r == Ok::<PluginConfigView, DecodeError>(c),
{
    let m = config_entries(c);
    assert(name_key() != version_key()) by {
        assert(name_key().len() != version_key().len());
    }
    assert(name_key() != server_ip_key()) by {
        assert(name_key().len() != server_ip_key().len());
    }
    assert(version_key() != server_ip_key()) by {
        assert(version_key().len() != server_ip_key().len());
    }
    assert(string_at(m, name_key()) == Some(c.name));
    assert(string_at(m, version_key()) == Some(c.version));
    assert(string_at(m, server_ip_key()) == Some(address_text(c.server_ip)));
    match c.server_ip {
        ServerAddress::V4(o) => {
            assert(v4_text(o) == address_text(c.server_ip));
        },
        ServerAddress::V6(g) => {
            assert(v6_form(g@, 0, 0) == hex_join(g@));
            assert(v6_denotes(address_text(c.server_ip), g@));
        },
    }
}

impl PluginConfig {
    /// The same configuration with `version` replaced.
    pub fn with_version(&self, version: String) -> (r: PluginConfig)
        ensures
            r@ == (PluginConfigView { version: version@, ..self@ }),
    {
        PluginConfig { name: self.name.clone(), version, server_ip: self.server_ip }
    }
}

/// The TOML table that holds `c`.
pub fn encode_table(c: &PluginConfig) -> (r: toml::Table)
    ensures
        table_entries(r) == config_entries(c@),
{
    let mut t = new_table();
    insert_string(&mut t, "name".to_owned(), c.name.clone());
    insert_string(&mut t, "version".to_owned(), c.version.clone());
    insert_string(&mut t, "server_ip".to_owned(), format_address(&c.server_ip));
    proof {
        reveal_strlit("name");
        reveal_strlit("version");
        reveal_strlit("server_ip");
        assert("name"@ =~= name_key());
        assert("version"@ =~= version_key());
        assert("server_ip"@ =~= server_ip_key());
        assert(table_entries(t) =~= config_entries(c@));
    }
    t
}

/// Reads a configuration out of a TOML table.
pub fn decode_table(t: &toml::Table) -> (r: Result<PluginConfig, DecodeError>)
    ensures
        decodes_to(table_entries(*t), result_view(r)),
{
    proof {
        reveal_strlit("name");
        reveal_strlit("version");
        reveal_strlit("server_ip");
        assert("name"@ =~= name_key());
        assert("version"@ =~= version_key());
        assert("server_ip"@ =~= server_ip_key());
    }
    let name = match lookup_string(t, "name") {
        Some(v) => v,
        None => {
            return Err(DecodeError::MissingField);
        },
    };
    let version = match lookup_string(t, "version") {
        Some(v) => v,
        None => {
            return Err(DecodeError::MissingField);
        },
    };
    let ip_text = match lookup_string(t, "server_ip") {
        Some(v) => v,
        None => {
            return Err(DecodeError::MissingField);
        },
    };
    match parse_address(ip_text.as_str()) {
        None => Err(DecodeError::InvalidAddress),
        Some(server_ip) => Ok(PluginConfig { name, version, server_ip }),
    }
}

/// The TOML text of a configuration.
pub fn encode(c: &PluginConfig) -> (r: String)
    ensures
        r@ == toml_text(config_entries(c@)),
{
    let t = encode_table(c);
    match render_table(&t) {
        Some(text) => text,
        None => {
            proof {
                assert(false);
            }
            String::new()
        },
    }
}

/// Reads a configuration out of TOML text.
pub fn decode(text: &str) -> (r: Result<PluginConfig, DecodeError>)
    ensures
        text_decodes_to(text@, result_view(r)),
{
    match parse_table(text) {
        None => Err(DecodeError::Syntax),
        Some(t) => decode_table(&t),
    }
}

} // verus!
