//! Server configuration: the settings of `custom/conf/app.ini`, their
//! defaults, and the settings written when no file exists yet.
use vstd::prelude::*;
use ini::Ini;
use crate::numfmt::{dec, parse_unsigned, dec_chars, parse_unsigned_chars, lemma_dec_parses, lemma_dec_value, is_digit};
use crate::paths::{join_path, join_paths};
use crate::text::{chars_of, string_of, slice_chars, is_space};

verus! {

/// The settings of an INI document, by section (`None` for the general
/// one) and key.
pub type Settings = Map<(Option<Seq<char>>, Seq<char>), Seq<char>>;

#[verifier::external_type_specification]
#[verifier::external_body]
pub struct ExIni(ini::Ini);

/// What an INI document answers when asked for a setting: for a section
/// (`None` for the general one) and a key, the first value under that key
/// in the first section of that name.
pub uninterp spec fn ini_entries(ini: Ini) -> Settings;

/// Every section of the document has a name no other section has, every
/// named section holds at least one key, and in every section each key
/// occurs once (as `Ini::new` makes it and `set` keeps it).
pub uninterp spec fn ini_single_valued(ini: Ini) -> bool;

/// What `Ini::load_from_str` reads from a text: the settings, or `None`
/// when the text is not a well-formed INI document.
pub uninterp spec fn ini_parsed(text: Seq<char>) -> Option<Settings>;

/// `Ini::new()`: a document with an empty general section and no setting.
#[verifier::external_body]
fn ini_new() -> (r: Ini)
    ensures
        ini_entries(r) == Settings::empty(),
        ini_single_valued(r),
{
    Ini::new()
}

/// `Ini::load_from_str(text)`, its parse error dropped.
#[verifier::external_body]
fn ini_load(text: &str) -> (r: Option<Ini>)
    ensures
        match r {
            Some(i) => ini_parsed(text@) == Some(ini_entries(i)),
            None => ini_parsed(text@) is None,
        },
{
    Ini::load_from_str(text).ok()
}

/// `ini.get_from(Some(section), key)`: the setting, if there is one.
#[verifier::external_body]
fn ini_get(ini: &Ini, section: &str, key: &str) -> (r: Option<String>)
    ensures
        r is Some == ini_entries(*ini).contains_key((Some(section@), key@)),
        r is Some ==> r->0@ == ini_entries(*ini)[(Some(section@), key@)],
{
    match ini.get_from(Some(section), key) {
        Some(v) => Some(v.to_string()),
        None => None,
    }
}

/// `ini.with_section(Some(section)).set(key, value)`: sets (replaces) the
/// setting in the first section of that name, creating the section if needed.
#[verifier::external_body]
fn ini_set(ini: &mut Ini, section: &str, key: &str, value: &str)
    ensures
        ini_entries(*final(ini)) == ini_entries(*old(ini)).insert((Some(section@), key@), value@),
        ini_single_valued(*old(ini)) ==> ini_single_valued(*final(ini)),
{
    ini.with_section(Some(section)).set(key, value);
}

/// A character that an INI file carries as it is: an ASCII letter or
/// digit, `.`, `/`, `_` or `-`.
pub open spec fn plain_char(c: char) -> bool {
    ('a' <= c && c <= 'z') || ('A' <= c && c <= 'Z') || ('0' <= c && c <= '9') || c == '.' || c
        == '/' || c == '_' || c == '-'
}

/// Text of one or more plain characters.
pub open spec fn plain_text(s: Seq<char>) -> bool {
    s.len() > 0 && forall|i: int| 0 <= i < s.len() ==> plain_char(#[trigger] s[i])
}

/// A value that an INI file gives back as it was written: not empty, no
/// whitespace at either end (the reader trims it), no quote at the start
/// (the reader takes it as a quoted value), and no vertical tab or form
/// feed (whose written escapes `\v` and `\f` the reader does not know).
/// Any other character, non-ASCII letters and `;`, `#`, `=`, `\` among them,
/// comes back unchanged.
pub open spec fn ini_safe_value(v: Seq<char>) -> bool {
    &&& v.len() > 0
    &&& !is_space(v[0])
    &&& !is_space(v.last())
    &&& v[0] != '"'
    &&& v[0] != '\''
    &&& forall|i: int| 0 <= i < v.len() ==> #[trigger] v[i] != '\u{b}' && v[i] != '\u{c}'
}

/// Every section name and key of the settings is plain text, and every
/// value is one an INI file gives back as it was written.
pub open spec fn plain_settings(m: Settings) -> bool {
    forall|k: (Option<Seq<char>>, Seq<char>)|
        #[trigger] m.contains_key(k) ==> (k.0 is None || plain_text(k.0->0)) && plain_text(k.1)
            && ini_safe_value(m[k])
}

/// `ini.write_to` into a buffer, as text: what `write_to_file` puts in a
/// file. A document whose sections and keys occur once, whose names are
/// plain and whose values are safe reads back as the same settings, and its
/// text does not start with a byte-order mark.
#[verifier::external_body]
fn ini_text(ini: &Ini) -> (r: String)
    ensures
        ini_single_valued(*ini) && plain_settings(ini_entries(*ini)) ==> ini_parsed(r@) == Some(
            ini_entries(*ini),
        ) && (r@.len() > 0 ==> r@[0] != '\u{feff}'),
{
    let mut buf: Vec<u8> = Vec::new();
    let _ = ini.write_to(&mut buf);
    String::from_utf8_lossy(&buf).into_owned()
}

/// The server configuration.
pub struct Config {
    pub server_addr: String,
    pub server_port: u16,
    pub data_path: String,
    pub log_path: String,
    pub repos_path: String,
}

/// A configuration as plain values.
pub struct ConfigView {
    pub server_addr: Seq<char>,
    pub server_port: u16,
    pub data_path: Seq<char>,
    pub log_path: Seq<char>,
    pub repos_path: Seq<char>,
}

impl View for Config {
    type V = ConfigView;

    open spec fn view(&self) -> ConfigView {
        ConfigView {
            server_addr: self.server_addr@,
            server_port: self.server_port,
            data_path: self.data_path@,
            log_path: self.log_path@,
            repos_path: self.repos_path@,
        }
    }
}

/// The value of `key` in section `section`, if set.
pub open spec fn setting(s: Settings, section: Seq<char>, key: Seq<char>) -> Option<Seq<char>> {
    if s.contains_key((Some(section), key)) {
        Some(s[(Some(section), key)])
    } else {
        None
    }
}

/// A path setting, or the directory `name` under the program's directory.
pub open spec fn path_or(s: Settings, key: Seq<char>, exe_dir: Seq<char>, name: Seq<char>) -> Seq<char> {
    match setting(s, "paths"@, key) {
        Some(p) => p,
        None => join_path(exe_dir, name),
    }
}

/// The port setting when it is a valid port number, else 8080.
pub open spec fn port_of(s: Settings) -> u16 {
    match setting(s, "server"@, "port"@) {
        Some(t) => match parse_unsigned(t, 65535) {
            Some(p) => p as u16,
            None => 8080,
        },
        None => 8080,
    }
}

/// The configuration that the settings `s` describe, each missing or
/// unusable setting taking its default: address `127.0.0.1`, port 8080,
/// and `data`, `log` and `repos` under the program's directory.
pub open spec fn config_from(s: Settings, exe_dir: Seq<char>) -> ConfigView {
    ConfigView {
        server_addr: match setting(s, "server"@, "addr"@) {
            Some(a) => a,
            None => "127.0.0.1"@,
        },
        server_port: port_of(s),
        data_path: path_or(s, "data"@, exe_dir, "data"@),
        log_path: path_or(s, "log"@, exe_dir, "log"@),
        repos_path: path_or(s, "repos"@, exe_dir, "repos"@),
    }
}

/// The default configuration for a program in `exe_dir`.
pub open spec fn default_view(exe_dir: Seq<char>) -> ConfigView {
    config_from(Map::empty(), exe_dir)
}

/// The settings written for a configuration: `addr` and `port` under
/// `[server]`, `data`, `log` and `repos` under `[paths]`.
pub open spec fn saved_settings(c: ConfigView) -> Settings {
    Map::empty()
        .insert((Some("server"@), "addr"@), c.server_addr)
        .insert((Some("server"@), "port"@), dec(c.server_port as nat))
        .insert((Some("paths"@), "data"@), c.data_path)
        .insert((Some("paths"@), "log"@), c.log_path)
        .insert((Some("paths"@), "repos"@), c.repos_path)
}

/// The settings read from a configuration file's text: those of the INI
/// document after a leading byte-order mark, or none when the text is not
/// a well-formed document.
pub open spec fn file_settings(text: Seq<char>) -> Settings {
    let body = if text.len() > 0 && text[0] == '\u{feff}' {
        text.drop_first()
    } else {
        text
    };
    match ini_parsed(body) {
        Some(m) => m,
        None => Map::empty(),
    }
}

fn path_setting(ini: &Ini, key: &str, exe_dir: &str, name: &str) -> (r: String)
    ensures
        r@ == path_or(ini_entries(*ini), key@, exe_dir@, name@),
{
    match ini_get(ini, "paths", key) {
        Some(p) => p,
        None => join_paths(exe_dir, name),
    }
}

impl Config {
    /// The configuration that an INI document describes, with the defaults
    /// for settings it lacks.
    pub fn from_ini(ini: &Ini, exe_dir: &str) -> (r: Config)
        ensures
            r@ == config_from(ini_entries(*ini), exe_dir@),
    {
        let server_addr = match ini_get(ini, "server", "addr") {
            Some(a) => a,
            None => String::from_str("127.0.0.1"),
        };
        let server_port: u16 = match ini_get(ini, "server", "port") {
            Some(t) => {
                let cs = chars_of(t.as_str());
                match parse_unsigned_chars(&cs, 65535) {
                    Some(p) => p as u16,
                    None => 8080,
                }
            },
            None => 8080,
        };
        let data_path = path_setting(ini, "data", exe_dir, "data");
        let log_path = path_setting(ini, "log", exe_dir, "log");
        let repos_path = path_setting(ini, "repos", exe_dir, "repos");
        Config { server_addr, server_port, data_path, log_path, repos_path }
    }

    /// The configuration that a configuration file's text describes; text
    /// that is not a well-formed INI document gives the defaults.
    pub fn from_file(text: &str, exe_dir: &str) -> (r: Config)
        ensures
            r@ == config_from(file_settings(text@), exe_dir@),
    {
        let cs = chars_of(text);
        let body: String = if cs.len() > 0 && cs[0] == '\u{feff}' {
            let rest = slice_chars(&cs, 1, cs.len());
            assert(rest@ =~= text@.drop_first());
            string_of(&rest)
        } else {
            String::from_str(text)
        };
        let ini = match ini_load(body.as_str()) {
            Some(i) => i,
            None => ini_new(),
        };
        Config::from_ini(&ini, exe_dir)
    }

    /// The defaults: `127.0.0.1:8080`, with `data`, `log` and `repos` in
    /// the program's directory.
    pub fn default_config(exe_dir: &str) -> (r: Config)
        ensures
            r@ == default_view(exe_dir@),
    {
        Config {
            server_addr: String::from_str("127.0.0.1"),
            server_port: 8080,
            data_path: join_paths(exe_dir, "data"),
            log_path: join_paths(exe_dir, "log"),
            repos_path: join_paths(exe_dir, "repos"),
        }
    }

    /// The INI document that saving this configuration writes.
    pub fn to_ini(&self) -> (r: Ini)
        ensures
            ini_entries(r) == saved_settings(self@),
            ini_single_valued(r),
    {
        let mut ini = ini_new();
        ini_set(&mut ini, "server", "addr", self.server_addr.as_str());
        let port = string_of(&dec_chars(self.server_port as u128));
        ini_set(&mut ini, "server", "port", port.as_str());
        ini_set(&mut ini, "paths", "data", self.data_path.as_str());
        ini_set(&mut ini, "paths", "log", self.log_path.as_str());
        ini_set(&mut ini, "paths", "repos", self.repos_path.as_str());
        ini
    }

    /// The configuration of a program in `exe_dir`, given the text of its
    /// configuration file when the file exists. When it does not, the
    /// defaults are used and the text to write there is returned too; when
    /// the defaults are plain, that text reads back as the same settings.
    pub fn load(exe_dir: &str, file: Option<&str>) -> (r: (Config, Option<String>))
        ensures
            file is Some ==> r.0@ == config_from(file_settings(file->0@), exe_dir@) && r.1 is None,
            file is None ==> r.0@ == default_view(exe_dir@) && r.1 is Some,
            file is None && plain_config(r.0@) ==> written_for(r.1->0@, r.0@),
    {
        match file {
            Some(text) => (Config::from_file(text, exe_dir), None),
            None => {
                let c = Config::default_config(exe_dir);
                let ini = c.to_ini();
                proof {
                    lemma_saved_plain(c@);
                }
                let text = ini_text(&ini);
                (c, Some(text))
            },
        }
    }
}

/// The paths and address of a configuration are values an INI file gives
/// back as written.
pub open spec fn plain_config(c: ConfigView) -> bool {
    &&& ini_safe_value(c.server_addr)
    &&& ini_safe_value(c.data_path)
    &&& ini_safe_value(c.log_path)
    &&& ini_safe_value(c.repos_path)
}

/// `text` is what saving `c` writes: it reads as the settings saved for `c`
/// and does not start with a byte-order mark.
pub open spec fn written_for(text: Seq<char>, c: ConfigView) -> bool {
    &&& ini_parsed(text) == Some(saved_settings(c))
    &&& (text.len() > 0 ==> text[0] != '\u{feff}')
}

proof fn lemma_saved_plain(c: ConfigView)
    ensures
        plain_config(c) ==> plain_settings(saved_settings(c)),
{
    if plain_config(c) {
        reveal_strlit("server");
        reveal_strlit("paths");
        reveal_strlit("addr");
        reveal_strlit("port");
        reveal_strlit("data");
        reveal_strlit("log");
        reveal_strlit("repos");
        lemma_dec_value(c.server_port as nat);
        let d = dec(c.server_port as nat);
        assert(ini_safe_value(d)) by {
            assert(is_digit(d[0]));
            assert(is_digit(d.last())) by {
                assert(d.last() == d[d.len() - 1]);
            }
            assert forall|i: int| 0 <= i < d.len() implies #[trigger] d[i] != '\u{b}' && d[i] != '\u{c}' by {
                assert(is_digit(d[i]));
            }
        }
        assert(plain_text("server"@));
        assert(plain_text("paths"@));
        assert(plain_text("addr"@));
        assert(plain_text("port"@));
        assert(plain_text("data"@));
        assert(plain_text("log"@));
        assert(plain_text("repos"@));
        let s = saved_settings(c);
        assert forall|k: (Option<Seq<char>>, Seq<char>)| #[trigger] s.contains_key(k) implies (k.0 is None
            || plain_text(k.0->0)) && plain_text(k.1) && ini_safe_value(s[k]) by {
            if k == (Some("paths"@), "repos"@) {
            } else if k == (Some("paths"@), "log"@) {
            } else if k == (Some("paths"@), "data"@) {
            } else if k == (Some("server"@), "port"@) {
            } else {
                assert(k == (Some("server"@), "addr"@));
            }
        }
    }
}

/// Loading twice gives the same configuration: when no configuration file
/// exists, the text written for the defaults (whose paths and address an
/// INI file gives back as written) is read by the next load as those same
/// defaults.
pub proof fn law_saved_config_loads_again(exe_dir: Seq<char>, text: Seq<char>)
    requires
        plain_config(default_view(exe_dir)),
        written_for(text, default_view(exe_dir)),
    ensures
        config_from(file_settings(text), exe_dir) == default_view(exe_dir),
{
    if text.len() > 0 {
        assert(text[0] != '\u{feff}');
    }
    law_saved_settings_read_back(default_view(exe_dir), exe_dir);
}

/// A saved configuration reads back as itself: the settings written for a
/// configuration describe that same configuration, whatever the program's
/// directory.
pub proof fn law_saved_settings_read_back(c: ConfigView, exe_dir: Seq<char>)
    ensures
        config_from(saved_settings(c), exe_dir) == c,
{
    lemma_dec_parses(c.server_port as nat, 65535);
    reveal_strlit("server");
    reveal_strlit("paths");
    reveal_strlit("addr");
    reveal_strlit("port");
    reveal_strlit("data");
    reveal_strlit("log");
    reveal_strlit("repos");
    assert("server"@ != "paths"@) by {
        assert("server"@.len() != "paths"@.len());
    }
    assert("addr"@ != "port"@) by {
        assert("addr"@[0] != "port"@[0]);
    }
    assert("data"@ != "log"@ && "data"@ != "repos"@ && "log"@ != "repos"@) by {
        assert("data"@.len() == 4 && "log"@.len() == 3 && "repos"@.len() == 5);
    }
    let s = saved_settings(c);
    assert(setting(s, "server"@, "addr"@) == Some(c.server_addr));
    assert(setting(s, "server"@, "port"@) == Some(dec(c.server_port as nat)));
    assert(setting(s, "paths"@, "data"@) == Some(c.data_path));
    assert(setting(s, "paths"@, "log"@) == Some(c.log_path));
    assert(setting(s, "paths"@, "repos"@) == Some(c.repos_path));
}

} // verus!
