use crate::text::{join_path, joined};
use vstd::prelude::*;
use vstd::string::*;

verus! {

/// The text of `path`, or nothing where there is no path.
pub open spec fn maybe(path: Option<String>) -> Seq<Seq<char>> {
    match path {
        Some(p) => seq![p@],
        None => Seq::empty(),
    }
}

/// The same, for a configuration file below the directory `dir`.
pub open spec fn maybe_below(dir: Option<String>, file: Seq<char>) -> Seq<Seq<char>> {
    match dir {
        Some(d) => seq![joined(d@, file)],
        None => Seq::empty(),
    }
}

/// Where a configuration file is looked for, in this order: a path given on
/// the command line and nothing else; or else the path from the
/// environment, the working directory, `/etc/healer`, the XDG configuration
/// directory and the home directory.
pub open spec fn candidates(
    explicit: Option<String>,
    env_config: Option<String>,
    xdg_config_home: Option<String>,
    home_dir: Option<String>,
) -> Seq<Seq<char>> {
    if explicit is Some {
        maybe(explicit)
    } else {
        maybe(env_config) + seq![
            "./config.yaml"@,
            "./healer.yaml"@,
            "/etc/healer/config.yaml"@,
            "/etc/healer/healer.yaml"@,
        ] + maybe_below(xdg_config_home, "healer/config.yaml"@) + maybe_below(
            home_dir,
            ".config/healer/config.yaml"@,
        )
    }
}

/// The texts of a list of paths.
pub open spec fn texts(paths: Seq<String>) -> Seq<Seq<char>> {
    paths.map_values(|p: String| p@)
}

/// Where a configuration file is looked for, in order.
pub fn candidate_config_paths(
    explicit: Option<String>,
    env_config: Option<String>,
    xdg_config_home: Option<String>,
    home_dir: Option<String>,
) -> (paths: Vec<String>)
    ensures
        texts(paths@) == candidates(explicit, env_config, xdg_config_home, home_dir),
{
    let mut paths: Vec<String> = Vec::new();
    if let Some(p) = explicit {
        paths.push(p);
        proof {
            assert(texts(paths@) =~= candidates(explicit, env_config, xdg_config_home, home_dir));
        }
        return paths;
    }
    if let Some(p) = env_config {
        paths.push(p);
    }
    paths.push("./config.yaml".to_owned());
    paths.push("./healer.yaml".to_owned());
    paths.push("/etc/healer/config.yaml".to_owned());
    paths.push("/etc/healer/healer.yaml".to_owned());
    if let Some(home) = xdg_config_home {
        paths.push(join_path(home.as_str(), "healer/config.yaml"));
    }
    if let Some(home) = home_dir {
        paths.push(join_path(home.as_str(), ".config/healer/config.yaml"));
    }
    proof {
        assert(texts(paths@) =~= candidates(explicit, env_config, xdg_config_home, home_dir));
    }
    paths
}

/// The configuration file to use: the one given on the command line, or
/// else the one from the environment, or else the first candidate that
/// exists, or else `config.yaml`.
pub fn resolve_config_path(
    explicit: Option<String>,
    env_config: Option<String>,
    first_existing: Option<String>,
) -> (path: String)
    ensures
        path@ == match (explicit, env_config, first_existing) {
            (Some(p), _, _) => p@,
            (None, Some(p), _) => p@,
            (None, None, Some(p)) => p@,
            (None, None, None) => "config.yaml"@,
        },
{
    match explicit {
        Some(p) => p,
        None => match env_config {
            Some(p) => p,
            None => match first_existing {
                Some(p) => p,
                None => "config.yaml".to_owned(),
            },
        },
    }
}

/// `byte` with an ASCII capital turned into its small letter.
pub open spec fn lowered(byte: u8) -> u8 {
    if 0x41 <= byte <= 0x5A {
        (byte + 0x20) as u8
    } else {
        byte
    }
}

/// Whether `text` is `word`, capitals and small ASCII letters taken as the same.
pub open spec fn spells(text: Seq<u8>, word: Seq<u8>) -> bool {
    text.map_values(|b: u8| lowered(b)) == word
}

/// Whether the text `text` is the word `word`, which is in small letters,
/// capitals and small ASCII letters taken as the same.
pub fn spells_word(text: &str, word: &str) -> (r: bool)
    ensures
        r == spells(text.spec_bytes(), word.spec_bytes()),
{
    let t = text.as_bytes();
    let w = word.as_bytes();
    if t.len() != w.len() {
        return false;
    }
    let mut i: usize = 0;
    while i < t.len()
        invariant
            t@ == text.spec_bytes(),
            w@ == word.spec_bytes(),
            t@.len() == w@.len(),
            i <= t@.len(),
            forall|j: int| 0 <= j < i ==> lowered(t@[j]) == w@[j],
        decreases t@.len() - i,
    {
        let byte: u8 = t[i];
        let low: u8 = if 0x41 <= byte && byte <= 0x5A {
            byte + 0x20
        } else {
            byte
        };
        if low != w[i] {
            proof {
                assert(t@.map_values(|b: u8| lowered(b))[i as int] != w@[i as int]);
            }
            return false;
        }
        i += 1;
    }
    proof {
        assert(t@.map_values(|b: u8| lowered(b)) =~= w@);
    }
    true
}

/// Whether a setting says yes: `1`, `true` or `yes`, in any case of letters.
pub open spec fn says_yes(value: Seq<char>) -> bool {
    let bytes = vstd::utf8::encode_utf8(value);
    spells(bytes, vstd::utf8::encode_utf8("1"@)) || spells(bytes, vstd::utf8::encode_utf8("true"@))
        || spells(bytes, vstd::utf8::encode_utf8("yes"@))
}

/// Whether the daemon stays in the foreground: the command line asks for
/// it, or the environment says yes to it.
pub fn runs_in_foreground(flag: bool, env_value: Option<&str>) -> (r: bool)
    ensures
        r == (flag || match env_value {
            Some(value) => says_yes(value@),
            None => false,
        }),
{
    if flag {
        return true;
    }
    match env_value {
        Some(value) => spells_word(value, "1") || spells_word(value, "true") || spells_word(
            value,
            "yes",
        ),
        None => false,
    }
}

} // verus!
