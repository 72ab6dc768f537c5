//! The server's configuration, from environment variables.
//!
//! The default port is not 8080, which a local mail server's management interface takes.

use vstd::prelude::*;

use crate::auth::Secret;
use crate::net;
use crate::net::{IpValue, SocketAddr};
use crate::text;

verus! {

/// The address to listen on where none is given.
pub const DEFAULT_BIND: &'static str = "0.0.0.0:8000";

/// The configuration of the process.
pub struct Config {
    /// The address that the server listens on.
    pub bind: SocketAddr,
    /// Whether a request has to bear the gateway's key.
    pub require_api_key: bool,
    /// The gateway's key. It is there if and only if `require_api_key` is set, and it is
    /// never in a debug text.
    pub api_key: Option<Secret>,
    /// Whether the MCP endpoint is served.
    pub enable_mcp: bool,
    /// Whether targets that are not public are refused.
    pub block_private_endpoints: bool,
}

/// What a `Config` holds.
#[verifier::ext_equal]
pub struct ConfigValue {
    pub bind: (IpValue, u16, u32),
    pub require_api_key: bool,
    pub api_key: Option<Seq<char>>,
    pub enable_mcp: bool,
    pub block_private_endpoints: bool,
}

impl DeepView for Config {
    type V = ConfigValue;

    open spec fn deep_view(&self) -> ConfigValue {
        ConfigValue {
            bind: self.bind@,
            require_api_key: self.require_api_key,
            api_key: self.api_key.deep_view(),
            enable_mcp: self.enable_mcp,
            block_private_endpoints: self.block_private_endpoints,
        }
    }
}

/// The variables that the configuration is read from, as far as they are set.
pub struct EnvVars {
    /// `OVERFWD_BIND`
    pub bind: Option<String>,
    /// `OVERFWD_REQUIRE_API_KEY`
    pub require_api_key: Option<String>,
    /// `OVERFWD_API_KEY`
    pub api_key: Option<String>,
    /// `OVERFWD_ENABLE_MCP`
    pub enable_mcp: Option<String>,
    /// `OVERFWD_BLOCK_PRIVATE_ENDPOINTS`
    pub block_private_endpoints: Option<String>,
}

/// Why there is no configuration.
#[derive(Debug, PartialEq, Eq)]
pub enum ConfigError {
    /// The bind variable is not an address with a port.
    InvalidBind { value: String },
    /// A switch is neither on nor off.
    InvalidBool { var: &'static str, value: String },
    /// A key is required and there is none.
    MissingApiKey,
}

/// What a `ConfigError` holds.
#[verifier::ext_equal]
pub enum ConfigErrorValue {
    InvalidBind { value: Seq<char> },
    InvalidBool { var: Seq<char>, value: Seq<char> },
    MissingApiKey,
}

impl View for ConfigError {
    type V = ConfigErrorValue;

    open spec fn view(&self) -> ConfigErrorValue {
        match *self {
            ConfigError::InvalidBind { value } => ConfigErrorValue::InvalidBind { value: value@ },
            ConfigError::InvalidBool { var, value } => ConfigErrorValue::InvalidBool {
                var: var@,
                value: value@,
            },
            ConfigError::MissingApiKey => ConfigErrorValue::MissingApiKey,
        }
    }
}

/// The words for a configuration error.
pub open spec fn config_error_text(e: ConfigErrorValue) -> Seq<char> {
    match e {
        ConfigErrorValue::InvalidBind { value } => "OVERFWD_BIND='"@ + value
            + "' is not a valid host:port address: invalid socket address syntax"@,
        ConfigErrorValue::InvalidBool { var, value } => var + "='"@ + value
            + "' is not a valid boolean (use true/false)"@,
        ConfigErrorValue::MissingApiKey =>
            "OVERFWD_REQUIRE_API_KEY=true but OVERFWD_API_KEY is unset — refusing to start a gateway that requires a key it does not have"@,
    }
}

impl ConfigError {
    /// The error in words.
    pub fn to_text(&self) -> (r: String)
        ensures
            r@ == config_error_text(self@),
    {
        match self {
            ConfigError::InvalidBind { value } => text::concat3(
                "OVERFWD_BIND='",
                value.as_str(),
                "' is not a valid host:port address: invalid socket address syntax",
            ),
            ConfigError::InvalidBool { var, value } => {
                let mut m = text::concat3(var, "='", value.as_str());
                m.append("' is not a valid boolean (use true/false)");
                m
            },
            ConfigError::MissingApiKey =>
                "OVERFWD_REQUIRE_API_KEY=true but OVERFWD_API_KEY is unset — refusing to start a gateway that requires a key it does not have".to_owned(),
        }
    }
}

/// What a switch says: `true/1/yes/on` or `false/0/no/off`, whatever the case of the
/// letters and the space around.
pub open spec fn bool_text(raw: Seq<char>) -> Option<bool> {
    let v = text::lowered(text::trimmed(raw));
    if v == "true"@ || v == "1"@ || v == "yes"@ || v == "on"@ {
        Some(true)
    } else if v == "false"@ || v == "0"@ || v == "no"@ || v == "off"@ {
        Some(false)
    } else {
        None
    }
}

/// Whether a switch is set and says that it is on.
pub open spec fn switched_on(raw: Option<Seq<char>>) -> bool {
    match raw {
        Some(v) => bool_text(v) == Some(true),
        None => false,
    }
}

/// What the switch `var` says; `default` where it is not set.
pub open spec fn switch(raw: Option<Seq<char>>, var: Seq<char>, default: bool) -> Result<
    bool,
    ConfigErrorValue,
> {
    match raw {
        None => Ok(default),
        Some(v) => match bool_text(v) {
            Some(b) => Ok(b),
            None => Err(ConfigErrorValue::InvalidBool { var, value: v }),
        },
    }
}

/// A key that is not empty.
pub open spec fn key_of(raw: Option<Seq<char>>) -> Option<Seq<char>> {
    match raw {
        Some(k) => if k.len() > 0 {
            Some(k)
        } else {
            None
        },
        None => None,
    }
}

/// What the variables say: the first of them that cannot be read, in the order below,
/// gives the error.
pub open spec fn config_of(
    bind: Option<Seq<char>>,
    require: Option<Seq<char>>,
    key: Option<Seq<char>>,
    mcp: Option<Seq<char>>,
    block: Option<Seq<char>>,
) -> Result<ConfigValue, ConfigErrorValue> {
    let bind_text = match bind {
        Some(b) => b,
        None => DEFAULT_BIND@,
    };
    match net::socket_literal(bind_text) {
        None => Err(ConfigErrorValue::InvalidBind { value: bind_text }),
        Some(addr) => match switch(require, "OVERFWD_REQUIRE_API_KEY"@, false) {
            Err(e) => Err(e),
            Ok(required) => if required && key_of(key) is None {
                Err(ConfigErrorValue::MissingApiKey)
            } else {
                match switch(mcp, "OVERFWD_ENABLE_MCP"@, true) {
                    Err(e) => Err(e),
                    Ok(enable_mcp) => match switch(
                        block,
                        "OVERFWD_BLOCK_PRIVATE_ENDPOINTS"@,
                        false,
                    ) {
                        Err(e) => Err(e),
                        Ok(block_private_endpoints) => Ok(
                            ConfigValue {
                                bind: addr,
                                require_api_key: required,
                                api_key: if required {
                                    key_of(key)
                                } else {
                                    None
                                },
                                enable_mcp,
                                block_private_endpoints,
                            },
                        ),
                    },
                }
            },
        },
    }
}

/// What a loaded configuration holds, or why there is none.
pub open spec fn loaded(r: Result<Config, ConfigError>) -> Result<ConfigValue, ConfigErrorValue> {
    match r {
        Ok(c) => Ok(c.deep_view()),
        Err(e) => Err(e@),
    }
}

/// Reads a switch.
pub fn parse_bool(raw: &str) -> (r: Option<bool>)
    ensures
        r == bool_text(raw@),
{
    let all = text::to_chars(raw);
    let v = text::lower_chars(text::trim_chars(all.as_slice()));
    let s = v.as_slice();
    if text::chars_are(s, "true") || text::chars_are(s, "1") || text::chars_are(s, "yes")
        || text::chars_are(s, "on") {
        Some(true)
    } else if text::chars_are(s, "false") || text::chars_are(s, "0") || text::chars_are(s, "no")
        || text::chars_are(s, "off") {
        Some(false)
    } else {
        None
    }
}

fn read_switch(raw: &Option<String>, var: &'static str, default: bool) -> (r: Result<
    bool,
    ConfigError,
>)
    ensures
        match r {
            Ok(b) => switch(raw.deep_view(), var@, default) == Ok::<bool, ConfigErrorValue>(b),
            Err(e) => switch(raw.deep_view(), var@, default) == Err::<bool, ConfigErrorValue>(e@),
        },
{
    match raw {
        None => Ok(default),
        Some(v) => match parse_bool(v.as_str()) {
            Some(b) => Ok(b),
            None => Err(ConfigError::InvalidBool { var, value: v.clone() }),
        },
    }
}

impl Config {
    /// The configuration that the variables ask for. One that contradicts itself, a key
    /// required and none given, is an error here and not at the first request.
    pub fn from_env(vars: &EnvVars) -> (r: Result<Self, ConfigError>)
        ensures
            loaded(r) == config_of(
                vars.bind.deep_view(),
                vars.require_api_key.deep_view(),
                vars.api_key.deep_view(),
                vars.enable_mcp.deep_view(),
                vars.block_private_endpoints.deep_view(),
            ),
    {
        let bind_text = match &vars.bind {
            Some(b) => b.clone(),
            None => DEFAULT_BIND.to_owned(),
        };
        let bind = match net::parse_socket(text::to_chars(bind_text.as_str()).as_slice()) {
            Some(addr) => addr,
            None => {
                return Err(ConfigError::InvalidBind { value: bind_text });
            },
        };
        let require_api_key = match read_switch(
            &vars.require_api_key,
            "OVERFWD_REQUIRE_API_KEY",
            false,
        ) {
            Ok(b) => b,
            Err(e) => {
                return Err(e);
            },
        };
        let api_key = match &vars.api_key {
            Some(k) => if text::to_chars(k.as_str()).len() > 0 {
                Some(Secret::new(k.clone()))
            } else {
                None
            },
            None => None,
        };
        let api_key = if require_api_key {
            if api_key.is_none() {
                return Err(ConfigError::MissingApiKey);
            }
            api_key
        } else {
            None
        };
        let enable_mcp = match read_switch(&vars.enable_mcp, "OVERFWD_ENABLE_MCP", true) {
            Ok(b) => b,
            Err(e) => {
                return Err(e);
            },
        };
        let block_private_endpoints = match read_switch(
            &vars.block_private_endpoints,
            "OVERFWD_BLOCK_PRIVATE_ENDPOINTS",
            false,
        ) {
            Ok(b) => b,
            Err(e) => {
                return Err(e);
            },
        };
        Ok(Config { bind, require_api_key, api_key, enable_mcp, block_private_endpoints })
    }

    /// The configuration in debug form, its key replaced by the placeholder.
    pub fn debug_text(&self) -> (r: String)
        ensures
            r@ == config_debug(self.deep_view()),
    {
        let mut out = text::concat3(
            "Config { bind: ",
            self.bind.to_text().as_str(),
            ", require_api_key: ",
        );
        out.append(bool_word(self.require_api_key));
        out.append(", api_key: ");
        out.append(
            if self.api_key.is_some() {
                "Some(Secret(***redacted***))"
            } else {
                "None"
            },
        );
        out.append(", enable_mcp: ");
        out.append(bool_word(self.enable_mcp));
        out.append(", block_private_endpoints: ");
        out.append(bool_word(self.block_private_endpoints));
        out.append(" }");
        out
    }
}

/// `true` or `false`.
pub open spec fn word_of(b: bool) -> Seq<char> {
    if b {
        "true"@
    } else {
        "false"@
    }
}

fn bool_word(b: bool) -> (r: &'static str)
    ensures
        r@ == word_of(b),
{
    if b {
        "true"
    } else {
        "false"
    }
}

/// The debug form of a configuration, with the placeholder for its key.
pub open spec fn config_debug(c: ConfigValue) -> Seq<char> {
    let key = if c.api_key is Some {
        "Some(Secret(***redacted***))"@
    } else {
        "None"@
    };
    "Config { bind: "@ + net::socket_text(c.bind) + ", require_api_key: "@ + word_of(
        c.require_api_key,
    ) + ", api_key: "@ + key + ", enable_mcp: "@ + word_of(c.enable_mcp)
        + ", block_private_endpoints: "@ + word_of(c.block_private_endpoints) + " }"@
}

/// A configuration has a key if and only if it requires one.
pub proof fn law_required_key_is_there(
    bind: Option<Seq<char>>,
    require: Option<Seq<char>>,
    key: Option<Seq<char>>,
    mcp: Option<Seq<char>>,
    block: Option<Seq<char>>,
)
    ensures
        config_of(bind, require, key, mcp, block) matches Ok(c) ==> (c.require_api_key
            <==> c.api_key is Some),
{
}

/// The debug form does not tell two keys apart.
pub proof fn law_debug_hides_key(a: ConfigValue, b: ConfigValue)
    requires
        a.bind == b.bind,
        a.require_api_key == b.require_api_key,
        a.api_key is Some <==> b.api_key is Some,
        a.enable_mcp == b.enable_mcp,
        a.block_private_endpoints == b.block_private_endpoints,
    ensures
        config_debug(a) == config_debug(b),
{
}

proof fn lemma_words()
    ensures
        "true"@ == seq!['t', 'r', 'u', 'e'],
        "1"@ == seq!['1'],
        "yes"@ == seq!['y', 'e', 's'],
        "on"@ == seq!['o', 'n'],
        "false"@ == seq!['f', 'a', 'l', 's', 'e'],
        "0"@ == seq!['0'],
        "no"@ == seq!['n', 'o'],
        "off"@ == seq!['o', 'f', 'f'],
{
    reveal_strlit("true");
    reveal_strlit("1");
    reveal_strlit("yes");
    reveal_strlit("on");
    reveal_strlit("false");
    reveal_strlit("0");
    reveal_strlit("no");
    reveal_strlit("off");
    assert("true"@ =~= seq!['t', 'r', 'u', 'e']);
    assert("1"@ =~= seq!['1']);
    assert("yes"@ =~= seq!['y', 'e', 's']);
    assert("on"@ =~= seq!['o', 'n']);
    assert("false"@ =~= seq!['f', 'a', 'l', 's', 'e']);
    assert("0"@ =~= seq!['0']);
    assert("no"@ =~= seq!['n', 'o']);
    assert("off"@ =~= seq!['o', 'f', 'f']);
}

/// Four words say on and four say off, whatever the case of their letters and the space
/// around them, and no other text says either. A switch that is not set is not on.
pub proof fn law_the_words_of_a_switch(raw: Seq<char>)
    ensures
        ({
            let word = text::lowered(text::trimmed(raw));
            let on = seq!["true"@, "1"@, "yes"@, "on"@];
            let off = seq!["false"@, "0"@, "no"@, "off"@];
            &&& bool_text(raw) == Some(true) <==> on.contains(word)
            &&& bool_text(raw) == Some(false) <==> off.contains(word)
            &&& bool_text(raw) is None <==> !on.contains(word) && !off.contains(word)
            &&& switched_on(Some(raw)) <==> on.contains(word)
            &&& !switched_on(None)
        }),
{
    lemma_words();
    let word = text::lowered(text::trimmed(raw));
    let on = seq!["true"@, "1"@, "yes"@, "on"@];
    let off = seq!["false"@, "0"@, "no"@, "off"@];
    assert(on[0] == "true"@ && on[1] == "1"@ && on[2] == "yes"@ && on[3] == "on"@);
    assert(off[0] == "false"@ && off[1] == "0"@ && off[2] == "no"@ && off[3] == "off"@);
    assert("on"@.len() == 2 && "no"@.len() == 2 && "on"@[0] != "no"@[0]);
    assert("1"@[0] != "0"@[0]);
    assert("yes"@[0] != "off"@[0]);
    assert("true"@.len() == 4 && "false"@.len() == 5);
    if on.contains(word) {
        let k = on.index_of(word);
        assert(on[k] == word);
    }
    if off.contains(word) {
        let k = off.index_of(word);
        assert(off[k] == word);
    }
}

/// There is a configuration exactly where each variable that is set can be read, and a key
/// that is required is there, not an empty one.
pub proof fn law_when_there_is_a_configuration(
    bind: Option<Seq<char>>,
    require: Option<Seq<char>>,
    key: Option<Seq<char>>,
    mcp: Option<Seq<char>>,
    block: Option<Seq<char>>,
)
    ensures
        config_of(bind, require, key, mcp, block) is Ok <==> {
            &&& bind matches Some(b) ==> net::socket_literal(b) is Some
            &&& bind is None ==> net::socket_literal("0.0.0.0:8000"@) is Some
            &&& require matches Some(v) ==> bool_text(v) is Some
            &&& mcp matches Some(v) ==> bool_text(v) is Some
            &&& block matches Some(v) ==> bool_text(v) is Some
            &&& switched_on(require) ==> (key matches Some(k) && k.len() > 0)
        },
{
}

/// Each setting is what its own variable says. Without one, the server listens on port 8000
/// of every address, requires no key, serves the MCP endpoint and refuses no target.
pub proof fn law_each_setting_is_its_variable(
    bind: Option<Seq<char>>,
    require: Option<Seq<char>>,
    key: Option<Seq<char>>,
    mcp: Option<Seq<char>>,
    block: Option<Seq<char>>,
)
    ensures
        config_of(bind, require, key, mcp, block) matches Ok(c) ==> {
            &&& bind matches Some(b) ==> net::socket_literal(b) == Some(c.bind)
            &&& bind is None ==> net::socket_literal("0.0.0.0:8000"@) == Some(c.bind)
            &&& c.require_api_key <==> switched_on(require)
            &&& c.api_key matches Some(k) ==> key == Some(k)
            &&& c.api_key is Some <==> c.require_api_key
            &&& c.enable_mcp <==> mcp is None || switched_on(mcp)
            &&& c.block_private_endpoints <==> switched_on(block)
        },
{
}

/// A variable that cannot be read is named with what it says.
pub proof fn law_unreadable_variables_are_named(
    bind: Option<Seq<char>>,
    require: Option<Seq<char>>,
    key: Option<Seq<char>>,
    mcp: Option<Seq<char>>,
    block: Option<Seq<char>>,
)
    ensures
        config_of(bind, require, key, mcp, block) matches Err(
            ConfigErrorValue::InvalidBool { var, value },
        ) ==> bool_text(value) is None && {
            ||| var == "OVERFWD_REQUIRE_API_KEY"@ && require == Some(value)
            ||| var == "OVERFWD_ENABLE_MCP"@ && mcp == Some(value)
            ||| var == "OVERFWD_BLOCK_PRIVATE_ENDPOINTS"@ && block == Some(value)
        },
        config_of(bind, require, key, mcp, block) matches Err(
            ConfigErrorValue::InvalidBind { value },
        ) ==> net::socket_literal(value) is None && (bind matches Some(b) ==> b == value),
        config_of(bind, require, key, mcp, block) == Err::<ConfigValue, ConfigErrorValue>(
            ConfigErrorValue::MissingApiKey,
        ) ==> switched_on(require) && (key matches Some(k) ==> k.len() == 0),
{
}

/// A variable that cannot be read is told by its name and its value, and a missing key by
/// the names of the two variables that do not go together.
pub proof fn law_how_a_bad_setting_is_told(var: Seq<char>, value: Seq<char>) -> (at: int)
    ensures
        text::has_prefix(
            config_error_text(ConfigErrorValue::InvalidBool { var, value }),
            var + "='"@ + value + "'"@,
        ),
        text::has_prefix(
            config_error_text(ConfigErrorValue::InvalidBind { value }),
            "OVERFWD_BIND"@ + "='"@ + value + "'"@,
        ),
        text::has_prefix(
            config_error_text(ConfigErrorValue::MissingApiKey),
            "OVERFWD_REQUIRE_API_KEY=true"@,
        ),
        text::has_prefix(
            config_error_text(ConfigErrorValue::MissingApiKey).skip(at),
            "OVERFWD_API_KEY is unset"@,
        ),
        0 <= at < config_error_text(ConfigErrorValue::MissingApiKey).len(),
{
    reveal_strlit("'");
    reveal_strlit("='");
    reveal_strlit("OVERFWD_BIND");
    reveal_strlit("OVERFWD_BIND='");
    reveal_strlit("' is not a valid host:port address: invalid socket address syntax");
    reveal_strlit("' is not a valid boolean (use true/false)");
    reveal_strlit("OVERFWD_REQUIRE_API_KEY=true");
    reveal_strlit("OVERFWD_API_KEY is unset");
    reveal_strlit(
        "OVERFWD_REQUIRE_API_KEY=true but OVERFWD_API_KEY is unset — refusing to start a gateway that requires a key it does not have",
    );
    let flag = config_error_text(ConfigErrorValue::InvalidBool { var, value });
    let flag_start = var + "='"@ + value + "'"@;
    assert(flag.take(flag_start.len() as int) =~= flag_start);
    let bind = config_error_text(ConfigErrorValue::InvalidBind { value });
    let bind_start = "OVERFWD_BIND"@ + "='"@ + value + "'"@;
    assert(bind.take(bind_start.len() as int) =~= bind_start);
    let key = config_error_text(ConfigErrorValue::MissingApiKey);
    assert(key.take("OVERFWD_REQUIRE_API_KEY=true"@.len() as int)
        =~= "OVERFWD_REQUIRE_API_KEY=true"@);
    assert(key.skip(33).take("OVERFWD_API_KEY is unset"@.len() as int)
        =~= "OVERFWD_API_KEY is unset"@);
    33
}

/// What is said of a value is said of what it holds: every field and every case stands
/// under its own name, and nothing is left out.
pub proof fn law_views_say_what_the_values_hold(
    config: Config,
    config_error: ConfigError,
)
    ensures
        config.deep_view().bind == config.bind@,
        config.deep_view().require_api_key == config.require_api_key,
        config.deep_view().api_key == config.api_key.deep_view(),
        config.deep_view().enable_mcp == config.enable_mcp,
        config.deep_view().block_private_endpoints == config.block_private_endpoints,
        match config_error {
            ConfigError::InvalidBind { value } => config_error@
                == (ConfigErrorValue::InvalidBind { value: value@ }),
            ConfigError::InvalidBool { var, value } => config_error@
                == (ConfigErrorValue::InvalidBool { var: var@, value: value@ }),
            ConfigError::MissingApiKey => config_error@ == ConfigErrorValue::MissingApiKey,
        },
{
}

} // verus!
