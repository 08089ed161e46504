//! Project configuration values, with defaults.
use vstd::prelude::*;
use crate::text::{chars_of, string_of};

verus! {

/// Where and how to run the frontend dev server.
#[derive(Debug, Clone)]
pub struct FrontendConfig {
    pub path: Option<String>,
    pub disable_auto_detect: bool,
    pub dev_command: Option<String>,
    pub port: Option<u16>,
    pub process_name: Option<String>,
}

/// How to run the Rails server.
#[derive(Debug, Clone)]
pub struct RailsConfig {
    pub port: Option<u16>,
    pub disable_auto_detect: bool,
}

/// Settings for one process: its command and environment variables.
#[derive(Debug, Clone)]
pub struct ProcessOverride {
    pub command: Option<String>,
    pub env: Vec<(String, String)>,
}

/// The whole configuration.
#[derive(Debug, Clone)]
pub struct CabooseConfig {
    pub frontend: FrontendConfig,
    pub rails: RailsConfig,
    /// Per-process settings by process name.
    pub processes: Vec<(String, ProcessOverride)>,
}

impl Default for FrontendConfig {
    fn default() -> (r: FrontendConfig)
        ensures
            r.path is None && !r.disable_auto_detect && r.dev_command is None && r.port is None
                && r.process_name is None,
    {
        FrontendConfig { path: None, disable_auto_detect: false, dev_command: None, port: None, process_name: None }
    }
}

impl Default for RailsConfig {
    fn default() -> (r: RailsConfig)
        ensures
            r.port is None && !r.disable_auto_detect,
    {
        RailsConfig { port: None, disable_auto_detect: false }
    }
}

impl Default for CabooseConfig {
    fn default() -> (r: CabooseConfig)
        ensures
            r.frontend.path is None && !r.frontend.disable_auto_detect && r.frontend.dev_command is None
                && r.frontend.port is None && r.frontend.process_name is None,
            r.rails.port is None && !r.rails.disable_auto_detect,
            r.processes@.len() == 0,
    {
        CabooseConfig { frontend: FrontendConfig::default(), rails: RailsConfig::default(), processes: Vec::new() }
    }
}

/// The commented example configuration file.
pub open spec fn example_config() -> &'static str {
    "# Caboose Configuration File\n# Save as .caboose.toml in your project root\n\n[frontend]\n# Explicit path to frontend directory (overrides auto-detection)\n# path = \"client\"\n\n# Disable auto-detection (useful if you have multiple frontend dirs)\n# disable_auto_detect = false\n\n# Custom dev command (overrides framework default)\n# dev_command = \"npm run dev -- --port 5173\"\n\n# Custom port\n# port = 5173\n\n# Custom process name in logs (default: \"frontend\")\n# process_name = \"ui\"\n\n[rails]\n# Rails server port (default: 3000)\n# port = 3000\n\n# Disable Rails auto-detection\n# disable_auto_detect = false\n\n# Process-specific overrides\n# [processes.web]\n# command = \"bundle exec puma -p 4000\"\n# env = { RAILS_ENV = \"development\" }\n\n# [processes.frontend]\n# command = \"cd client && pnpm dev\"\n# env = { NODE_ENV = \"development\" }\n"
}

impl CabooseConfig {
    /// The text of a commented example configuration file.
    pub fn create_example() -> (r: String)
        ensures
            r@ == example_config()@,
    {
        "# Caboose Configuration File\n# Save as .caboose.toml in your project root\n\n[frontend]\n# Explicit path to frontend directory (overrides auto-detection)\n# path = \"client\"\n\n# Disable auto-detection (useful if you have multiple frontend dirs)\n# disable_auto_detect = false\n\n# Custom dev command (overrides framework default)\n# dev_command = \"npm run dev -- --port 5173\"\n\n# Custom port\n# port = 5173\n\n# Custom process name in logs (default: \"frontend\")\n# process_name = \"ui\"\n\n[rails]\n# Rails server port (default: 3000)\n# port = 3000\n\n# Disable Rails auto-detection\n# disable_auto_detect = false\n\n# Process-specific overrides\n# [processes.web]\n# command = \"bundle exec puma -p 4000\"\n# env = { RAILS_ENV = \"development\" }\n\n# [processes.frontend]\n# command = \"cd client && pnpm dev\"\n# env = { NODE_ENV = \"development\" }\n".to_owned()
    }
}

} // verus!

verus! {

/// What one `.env` line gives: nothing, a variable, or a malformed line.
pub enum EnvLine {
    Skip,
    Var(Seq<char>, Seq<char>),
    Invalid,
}

/// `s` without the `"` characters around it.
pub open spec fn unquoted(s: Seq<char>) -> Seq<char> {
    crate::database::strip_end_char(crate::database::strip_start_char(s, '"'), '"')
}

pub open spec fn env_line(line: Seq<char>) -> EnvLine {
    let t = crate::text::trim(line);
    if t.len() == 0 || t[0] == '#' {
        EnvLine::Skip
    } else {
        match crate::text::index_of(t, seq!['='], 0) {
            Some(e) => EnvLine::Var(crate::text::trim(t.take(e)), unquoted(crate::text::trim(t.skip(e + 1)))),
            None => EnvLine::Invalid,
        }
    }
}

/// `vars` with `key` set to `value`: replaced in place, or added last.
pub open spec fn set_var(vars: Seq<(Seq<char>, Seq<char>)>, key: Seq<char>, value: Seq<char>) -> Seq<(Seq<char>, Seq<char>)> {
    if exists|k: int| 0 <= k < vars.len() && #[trigger] vars[k].0 == key {
        let k = choose|k: int| 0 <= k < vars.len() && #[trigger] vars[k].0 == key;
        vars.update(k, (key, value))
    } else {
        vars.push((key, value))
    }
}

/// The variables of `lines` from line `i` on, set over `vars`, and the
/// numbers of the malformed lines after `bad`.
pub open spec fn env_from(
    lines: Seq<Seq<char>>,
    i: int,
    vars: Seq<(Seq<char>, Seq<char>)>,
    bad: Seq<nat>,
) -> (Seq<(Seq<char>, Seq<char>)>, Seq<nat>)
    decreases lines.len() - i,
{
    if i < 0 || i >= lines.len() {
        (vars, bad)
    } else {
        match env_line(lines[i]) {
            EnvLine::Skip => env_from(lines, i + 1, vars, bad),
            EnvLine::Var(k, v) => env_from(lines, i + 1, set_var(vars, k, v), bad),
            EnvLine::Invalid => env_from(lines, i + 1, vars, bad.push((i + 1) as nat)),
        }
    }
}

pub open spec fn pairs(v: Seq<(String, String)>) -> Seq<(Seq<char>, Seq<char>)> {
    v.map_values(|p: (String, String)| (p.0@, p.1@))
}

pub open spec fn keys_distinct(v: Seq<(Seq<char>, Seq<char>)>) -> bool {
    forall|a: int, b: int| 0 <= a < v.len() && 0 <= b < v.len() && a != b ==> #[trigger] v[a].0 != #[trigger] v[b].0
}

fn set_var_exec(vars: &mut Vec<(String, String)>, key: Vec<char>, value: Vec<char>)
    requires
        keys_distinct(pairs(old(vars)@)),
    ensures
        keys_distinct(pairs(final(vars)@)),
        pairs(final(vars)@) == set_var(pairs(old(vars)@), key@, value@),
{
    let ghost before = pairs(vars@);
    let mut i: usize = 0;
    while i < vars.len()
        invariant
            i <= vars@.len(),
            vars@ == old(vars)@,
            before == pairs(vars@),
            keys_distinct(before),
            forall|k: int| 0 <= k < i ==> #[trigger] before[k].0 != key@,
        decreases vars.len() - i,
    {
        let c = chars_of(vars[i].0.as_str());
        if crate::text::same_chars(&c, &key) {
            let k = string_of(&key);
            let v = string_of(&value);
            vars.set(i, (k, v));
            proof {
                assert(before[i as int].0 == key@);
                let c2 = choose|c2: int| 0 <= c2 < before.len() && #[trigger] before[c2].0 == key@;
                if c2 != i {
                    assert(before[c2].0 != before[i as int].0);
                }
                assert(pairs(vars@) =~= before.update(i as int, (key@, value@)));
                assert forall|a: int, b: int| 0 <= a < pairs(vars@).len() && 0 <= b < pairs(vars@).len() && a != b
                    implies #[trigger] pairs(vars@)[a].0 != #[trigger] pairs(vars@)[b].0 by {
                    assert(pairs(vars@)[a].0 == before[a].0);
                    assert(pairs(vars@)[b].0 == before[b].0);
                }
            }
            return;
        }
        i += 1;
    }
    vars.push((string_of(&key), string_of(&value)));
    assert(pairs(vars@) =~= before.push((key@, value@)));
}

fn unquote_exec(s: &[char]) -> (r: Vec<char>)
    ensures
        r@ == unquoted(s@),
{
    let mut lo: usize = 0;
    assert(s@.subrange(0, s@.len() as int) == s@);
    while lo < s.len() && s[lo] == '"'
        invariant
            lo <= s@.len(),
            crate::database::strip_start_char(s@, '"') == crate::database::strip_start_char(
                s@.subrange(lo as int, s@.len() as int),
                '"',
            ),
        decreases s.len() - lo,
    {
        assert(s@.subrange(lo as int, s@.len() as int).drop_first() == s@.subrange(lo + 1, s@.len() as int));
        lo += 1;
    }
    let mut hi: usize = s.len();
    while hi > lo && s[hi - 1] == '"'
        invariant
            lo <= hi <= s@.len(),
            unquoted(s@) == crate::database::strip_end_char(s@.subrange(lo as int, hi as int), '"'),
        decreases hi,
    {
        assert(s@.subrange(lo as int, hi as int).drop_last() == s@.subrange(lo as int, hi - 1));
        hi -= 1;
    }
    crate::text::slice_vec(s, lo, hi)
}

/// Reads `.env` text: `KEY=value` lines, blank lines and `#` comments
/// skipped, quotes around values removed, a later setting replacing an
/// earlier one. Also gives the numbers of the malformed lines.
pub fn parse_env_content(content: &str) -> (r: (Vec<(String, String)>, Vec<usize>))
    ensures
        ({
            let (vars, bad) = env_from(crate::project::split_lines(content@), 0, Seq::empty(), Seq::empty());
            pairs(r.0@) == vars && r.1@.map_values(|n: usize| n as nat) == bad
        }),
{
    let c = chars_of(content);
    let lines = crate::project::split_lines_exec(&c);
    let ghost ls = crate::project::split_lines(content@);
    let mut vars: Vec<(String, String)> = Vec::new();
    let mut bad: Vec<usize> = Vec::new();
    let mut i: usize = 0;
    assert(pairs(vars@) =~= Seq::<(Seq<char>, Seq<char>)>::empty());
    assert(bad@.map_values(|n: usize| n as nat) =~= Seq::<nat>::empty());
    while i < lines.len()
        invariant
            i <= lines@.len(),
            ls == crate::project::split_lines(content@),
            lines@.map_values(|l: Vec<char>| l@) == ls,
            keys_distinct(pairs(vars@)),
            env_from(ls, i as int, pairs(vars@), bad@.map_values(|n: usize| n as nat)) == env_from(
                ls,
                0,
                Seq::empty(),
                Seq::empty(),
            ),
        decreases lines.len() - i,
    {
        assert(ls.len() == lines@.len());
        assert(ls[i as int] == lines@[i as int]@);
        let t = crate::text::trimmed(&lines[i]);
        if t.len() == 0 || t[0] == '#' {
        } else {
            let eq = ['='];
            assert(eq@ == seq!['=']);
            match crate::text::find_in(&t, &eq, 0) {
                Some(e) => {
                    let n = t.len();
                    let key = crate::text::trimmed(&crate::text::slice_vec(&t, 0, e));
                    let raw = crate::text::trimmed(&crate::text::slice_vec(&t, e + 1, n));
                    assert(t@.take(e as int) == t@.subrange(0, e as int));
                    assert(t@.skip(e + 1) == t@.subrange(e + 1, n as int));
                    let value = unquote_exec(&raw);
                    set_var_exec(&mut vars, key, value);
                },
                None => {
                    let ghost before = bad@.map_values(|n: usize| n as nat);
                    bad.push(i + 1);
                    assert(bad@.map_values(|n: usize| n as nat) =~= before.push((i + 1) as nat));
                },
            }
        }
        i += 1;
    }
    (vars, bad)
}

} // verus!
