//! Project set-up helpers: Procfile text, the git status line, and the
//! commands that start a frontend dev server or a Rails app's processes.
use vstd::prelude::*;
use crate::text::{chars_of, contains, decimal, find_in, index_of, push_all, push_decimal, push_str, slice_vec, string_of, trim, trimmed};

verus! {

/// One process of a Procfile.
#[derive(Debug, Clone)]
pub struct ProcessConfig {
    pub name: String,
    pub command: String,
}

/// The processes of a Procfile, in order.
#[derive(Debug, Clone)]
pub struct Procfile {
    pub processes: Vec<ProcessConfig>,
}

/// `s` cut at each newline.
pub open spec fn split_lines(s: Seq<char>) -> Seq<Seq<char>>
    decreases s.len(),
{
    match index_of(s, seq!['\n'], 0) {
        Some(k) => if 0 <= k < s.len() {
            seq![s.take(k)] + split_lines(s.skip(k + 1))
        } else {
            seq![s]
        },
        None => seq![s],
    }
}

/// What one Procfile line gives: nothing (blank or comment), a process
/// (name, command), or an error message. `n` is its line number.
pub enum LineOutcome {
    Skip,
    Entry(Seq<char>, Seq<char>),
    Error(Seq<char>),
}

pub open spec fn line_outcome(line: Seq<char>, n: nat) -> LineOutcome {
    let t = trim(line);
    if t.len() == 0 || t[0] == '#' {
        LineOutcome::Skip
    } else {
        match index_of(t, seq![':'], 0) {
            Some(c) => {
                let name = trim(t.take(c));
                let cmd = trim(t.skip(c + 1));
                if name.len() == 0 {
                    LineOutcome::Error("Empty process name at line "@ + decimal(n))
                } else if cmd.len() == 0 {
                    LineOutcome::Error("Empty command for process '"@ + name + "' at line "@ + decimal(n))
                } else {
                    LineOutcome::Entry(name, cmd)
                }
            },
            None => LineOutcome::Error(
                "Invalid format at line "@ + decimal(n) + ": expected 'name: command'"@,
            ),
        }
    }
}

/// The processes of `lines` from line `i` on, after those in `acc`, or the
/// first error.
pub open spec fn procfile_from(lines: Seq<Seq<char>>, i: int, acc: Seq<(Seq<char>, Seq<char>)>) -> Result<Seq<(Seq<char>, Seq<char>)>, Seq<char>>
    decreases lines.len() - i,
{
    if i < 0 || i >= lines.len() {
        if acc.len() == 0 {
            Err("No processes found in Procfile"@)
        } else {
            Ok(acc)
        }
    } else {
        match line_outcome(lines[i], (i + 1) as nat) {
            LineOutcome::Skip => procfile_from(lines, i + 1, acc),
            LineOutcome::Entry(n, c) => procfile_from(lines, i + 1, acc.push((n, c))),
            LineOutcome::Error(m) => Err(m),
        }
    }
}

pub open spec fn entries(ps: Seq<ProcessConfig>) -> Seq<(Seq<char>, Seq<char>)> {
    ps.map_values(|p: ProcessConfig| (p.name@, p.command@))
}

pub(crate) fn split_lines_exec(s: &[char]) -> (r: Vec<Vec<char>>)
    ensures
        r@.map_values(|l: Vec<char>| l@) == split_lines(s@),
{
    let mut r: Vec<Vec<char>> = Vec::new();
    let mut pos: usize = 0;
    let nl = ['\n'];
    assert(nl@ == seq!['\n']);
    assert(s@.skip(0) == s@);
    loop
        invariant
            pos <= s@.len(),
            nl@ == seq!['\n'],
            r@.map_values(|l: Vec<char>| l@) + split_lines(s@.skip(pos as int)) == split_lines(s@),
        decreases s@.len() - pos,
    {
        let ghost rest = s@.skip(pos as int);
        let ghost before = r@.map_values(|l: Vec<char>| l@);
        let n = s.len();
        match find_in(s, &nl, pos) {
            Some(k) => {
                proof {
                    crate::text::lemma_index_shift(s@, nl@, pos as int, pos as int);
                    assert(s@.subrange(pos as int, s@.len() as int) == rest);
                }
                let line = slice_vec(s, pos, k);
                assert(line@ == rest.take(k - pos));
                assert(rest.skip(k - pos + 1) == s@.skip(k + 1));
                r.push(line);
                assert(r@.map_values(|l: Vec<char>| l@) == before.push(line@));
                pos = k + 1;
            },
            None => {
                proof {
                    crate::text::lemma_index_shift(s@, nl@, pos as int, pos as int);
                    assert(s@.subrange(pos as int, s@.len() as int) == rest);
                }
                let line = slice_vec(s, pos, n);
                assert(line@ == rest);
                r.push(line);
                assert(r@.map_values(|l: Vec<char>| l@) == before.push(line@));
                return r;
            },
        }
    }
}

enum Outcome {
    Skip,
    Entry(Vec<char>, Vec<char>),
    Error(Vec<char>),
}

fn line_outcome_exec(line: &[char], n: usize) -> (r: Outcome)
    ensures
        match r {
            Outcome::Skip => line_outcome(line@, n as nat) is Skip,
            Outcome::Entry(a, b) => line_outcome(line@, n as nat) == LineOutcome::Entry(a@, b@),
            Outcome::Error(m) => line_outcome(line@, n as nat) == LineOutcome::Error(m@),
        },
{
    let t = trimmed(line);
    if t.len() == 0 || t[0] == '#' {
        return Outcome::Skip;
    }
    let colon = [':'];
    assert(colon@ == seq![':']);
    match find_in(&t, &colon, 0) {
        Some(c) => {
            let len = t.len();
            let name = trimmed(&slice_vec(&t, 0, c));
            let cmd = trimmed(&slice_vec(&t, c + 1, len));
            assert(t@.skip(c + 1) == t@.subrange(c + 1, len as int));
            if name.len() == 0 {
                let mut m: Vec<char> = Vec::new();
                push_str(&mut m, "Empty process name at line ");
                push_decimal(&mut m, n as u64);
                Outcome::Error(m)
            } else if cmd.len() == 0 {
                let mut m: Vec<char> = Vec::new();
                push_str(&mut m, "Empty command for process '");
                push_all(&mut m, &name);
                push_str(&mut m, "' at line ");
                push_decimal(&mut m, n as u64);
                Outcome::Error(m)
            } else {
                Outcome::Entry(name, cmd)
            }
        },
        None => {
            let mut m: Vec<char> = Vec::new();
            push_str(&mut m, "Invalid format at line ");
            push_decimal(&mut m, n as u64);
            push_str(&mut m, ": expected 'name: command'");
            Outcome::Error(m)
        },
    }
}

impl Procfile {
    /// Reads `name: command` lines, skipping blank lines and `#` comments.
    /// Fails on the first malformed line, or when no process is given.
    pub fn parse_content(content: &str) -> (r: Result<Procfile, String>)
        ensures
            match procfile_from(split_lines(content@), 0, Seq::empty()) {
                Ok(ps) => r matches Ok(p) && entries(p.processes@) == ps,
                Err(m) => r matches Err(e) && e@ == m,
            },
    {
        let c = chars_of(content);
        let lines = split_lines_exec(&c);
        let ghost ls = split_lines(content@);
        let mut processes: Vec<ProcessConfig> = Vec::new();
        let mut i: usize = 0;
        assert(entries(processes@) =~= Seq::<(Seq<char>, Seq<char>)>::empty());
        while i < lines.len()
            invariant
                i <= lines@.len(),
                ls == split_lines(content@),
                lines@.map_values(|l: Vec<char>| l@) == ls,
                procfile_from(ls, i as int, entries(processes@)) == procfile_from(ls, 0, Seq::empty()),
            decreases lines.len() - i,
        {
            assert(ls.len() == lines@.len());
            assert(ls[i as int] == lines@[i as int]@);
            let outcome = line_outcome_exec(&lines[i], i + 1);
            assert(((i + 1) as usize) as nat == (i + 1) as nat);
            match outcome {
                Outcome::Skip => {},
                Outcome::Entry(name, cmd) => {
                    let ghost before = entries(processes@);
                    processes.push(ProcessConfig { name: string_of(&name), command: string_of(&cmd) });
                    assert(entries(processes@) == before.push((name@, cmd@)));
                },
                Outcome::Error(m) => {
                    assert(line_outcome(ls[i as int], (i + 1) as nat) == LineOutcome::Error(m@));
                    assert(procfile_from(ls, i as int, entries(processes@)) == Err::<Seq<(Seq<char>, Seq<char>)>, Seq<char>>(m@));
                    return Err(string_of(&m));
                },
            }
            i += 1;
        }
        if processes.len() == 0 {
            return Err("No processes found in Procfile".to_owned());
        }
        Ok(Procfile { processes })
    }
}

} // verus!

verus! {

/// The state of the working copy.
#[derive(Debug, Clone)]
pub struct GitInfo {
    pub branch: Option<String>,
    pub has_changes: bool,
    pub ahead: usize,
    pub behind: usize,
}

/// The parts of the git status line, in order.
pub open spec fn git_parts(g: GitInfo) -> Seq<Seq<char>> {
    (match g.branch {
        Some(b) => seq![b@],
        None => Seq::empty(),
    }) + (if g.has_changes { seq!["*"@] } else { Seq::empty() }) + (if g.ahead > 0 {
        seq!["↑"@ + decimal(g.ahead as nat)]
    } else {
        Seq::empty()
    }) + (if g.behind > 0 { seq!["↓"@ + decimal(g.behind as nat)] } else { Seq::empty() })
}

/// The parts joined by single spaces.
pub open spec fn joined(parts: Seq<Seq<char>>) -> Seq<char>
    decreases parts.len(),
{
    if parts.len() == 0 {
        Seq::empty()
    } else if parts.len() == 1 {
        parts[0]
    } else {
        joined(parts.drop_last()) + seq![' '] + parts.last()
    }
}

fn push_part(out: &mut Vec<char>, parts: Ghost<Seq<Seq<char>>>, first: bool, part: &[char]) -> (r: Ghost<Seq<Seq<char>>>)
    requires
        old(out)@ == joined(parts@),
        first == (parts@.len() == 0),
    ensures
        r@ == parts@.push(part@),
        final(out)@ == joined(r@),
{
    let ghost np = parts@.push(part@);
    assert(np.drop_last() =~= parts@);
    if first {
        push_all(out, part);
        assert(final(out)@ == part@);
    } else {
        out.push(' ');
        push_all(out, part);
    }
    Ghost(np)
}

impl GitInfo {
    /// Branch, `*` for uncommitted changes, `↑n` and `↓n` for commits ahead
    /// and behind, joined by spaces; `no git` when there is nothing to show.
    pub fn format_short(&self) -> (r: String)
        ensures
            r@ == if git_parts(*self).len() == 0 { "no git"@ } else { joined(git_parts(*self)) },
    {
        let mut out: Vec<char> = Vec::new();
        let mut parts: Ghost<Seq<Seq<char>>> = Ghost(Seq::empty());
        let mut first = true;
        match &self.branch {
            Some(b) => {
                let bc = chars_of(b.as_str());
                parts = push_part(&mut out, parts, first, &bc);
                first = false;
            },
            None => {},
        }
        if self.has_changes {
            let star = chars_of("*");
            parts = push_part(&mut out, parts, first, &star);
            first = false;
        }
        if self.ahead > 0 {
            let mut a = chars_of("↑");
            push_decimal(&mut a, self.ahead as u64);
            parts = push_part(&mut out, parts, first, &a);
            first = false;
        }
        if self.behind > 0 {
            let mut b = chars_of("↓");
            push_decimal(&mut b, self.behind as u64);
            parts = push_part(&mut out, parts, first, &b);
            first = false;
        }
        assert(parts@ =~= git_parts(*self));
        if first {
            return "no git".to_owned();
        }
        string_of(&out)
    }
}

#[derive(Debug, Clone, Copy, PartialEq, Eq, Structural)]
pub enum FrontendFramework {
    Vite,
    NextJs,
    CreateReactApp,
    VueCli,
    Angular,
    NuxtJs,
    SvelteKit,
    Remix,
    Astro,
}

pub open spec fn dev_command_of(f: FrontendFramework) -> Seq<char> {
    match f {
        FrontendFramework::CreateReactApp | FrontendFramework::Angular => "npm start"@,
        FrontendFramework::VueCli => "npm run serve"@,
        _ => "npm run dev"@,
    }
}

impl FrontendFramework {
    /// The dev server command, written for npm.
    pub fn dev_command(&self) -> (r: String)
        ensures
            r@ == dev_command_of(*self),
    {
        match self {
            FrontendFramework::CreateReactApp | FrontendFramework::Angular => "npm start".to_owned(),
            FrontendFramework::VueCli => "npm run serve".to_owned(),
            _ => "npm run dev".to_owned(),
        }
    }

    pub fn default_port(&self) -> (r: u16)
        ensures
            r == match *self {
                FrontendFramework::Vite | FrontendFramework::SvelteKit => 5173u16,
                FrontendFramework::VueCli => 8080u16,
                FrontendFramework::Angular => 4200u16,
                _ => 3000u16,
            },
    {
        match self {
            FrontendFramework::Vite | FrontendFramework::SvelteKit => 5173,
            FrontendFramework::VueCli => 8080,
            FrontendFramework::Angular => 4200,
            _ => 3000,
        }
    }

    pub fn name(&self) -> (r: &'static str)
        ensures
            r@ == match *self {
                FrontendFramework::Vite => "Vite"@,
                FrontendFramework::NextJs => "Next.js"@,
                FrontendFramework::CreateReactApp => "Create React App"@,
                FrontendFramework::VueCli => "Vue CLI"@,
                FrontendFramework::Angular => "Angular"@,
                FrontendFramework::NuxtJs => "Nuxt.js"@,
                FrontendFramework::SvelteKit => "SvelteKit"@,
                FrontendFramework::Remix => "Remix"@,
                FrontendFramework::Astro => "Astro"@,
            },
    {
        match self {
            FrontendFramework::Vite => "Vite",
            FrontendFramework::NextJs => "Next.js",
            FrontendFramework::CreateReactApp => "Create React App",
            FrontendFramework::VueCli => "Vue CLI",
            FrontendFramework::Angular => "Angular",
            FrontendFramework::NuxtJs => "Nuxt.js",
            FrontendFramework::SvelteKit => "SvelteKit",
            FrontendFramework::Remix => "Remix",
            FrontendFramework::Astro => "Astro",
        }
    }
}

#[derive(Debug, Clone, Copy, PartialEq, Eq, Structural)]
pub enum PackageManager {
    Npm,
    Yarn,
    Pnpm,
    Bun,
}

pub open spec fn run_command_of(p: PackageManager) -> Seq<char> {
    match p {
        PackageManager::Npm => "npm"@,
        PackageManager::Yarn => "yarn"@,
        PackageManager::Pnpm => "pnpm"@,
        PackageManager::Bun => "bun"@,
    }
}

impl PackageManager {
    pub fn run_command(&self) -> (r: &'static str)
        ensures
            r@ == run_command_of(*self),
    {
        match self {
            PackageManager::Npm => "npm",
            PackageManager::Yarn => "yarn",
            PackageManager::Pnpm => "pnpm",
            PackageManager::Bun => "bun",
        }
    }

    /// The package manager a frontend directory's lock files point to:
    /// bun, then pnpm, then yarn, else npm.
    pub fn from_lock_files(has_bun_lock: bool, has_pnpm_lock: bool, has_yarn_lock: bool) -> (r: PackageManager)
        ensures
            r == if has_bun_lock {
                PackageManager::Bun
            } else if has_pnpm_lock {
                PackageManager::Pnpm
            } else if has_yarn_lock {
                PackageManager::Yarn
            } else {
                PackageManager::Npm
            },
    {
        if has_bun_lock {
            PackageManager::Bun
        } else if has_pnpm_lock {
            PackageManager::Pnpm
        } else if has_yarn_lock {
            PackageManager::Yarn
        } else {
            PackageManager::Npm
        }
    }
}

/// A detected frontend application.
#[derive(Debug, Clone)]
pub struct FrontendApp {
    pub detected: bool,
    pub framework: Option<FrontendFramework>,
    pub path: String,
    pub package_manager: PackageManager,
}

/// `s` with each `npm`, scanned left to right, replaced by `pm`.
pub open spec fn replace_npm(s: Seq<char>, pm: Seq<char>) -> Seq<char>
    decreases s.len(),
{
    if s.len() == 0 {
        s
    } else if crate::text::starts_with(s, seq!['n', 'p', 'm']) {
        pm + replace_npm(s.skip(3), pm)
    } else {
        seq![s[0]] + replace_npm(s.drop_first(), pm)
    }
}

fn replace_npm_exec(s: &[char], pm: &[char]) -> (r: Vec<char>)
    ensures
        r@ == replace_npm(s@, pm@),
{
    let npm = ['n', 'p', 'm'];
    assert(npm@ == seq!['n', 'p', 'm']);
    let mut out: Vec<char> = Vec::new();
    let mut i: usize = 0;
    assert(s@.subrange(0, s@.len() as int) == s@);
    while i < s.len()
        invariant
            i <= s@.len(),
            npm@ == seq!['n', 'p', 'm'],
            out@ + replace_npm(s@.subrange(i as int, s@.len() as int), pm@) == replace_npm(s@, pm@),
        decreases s.len() - i,
    {
        let ghost rest = s@.subrange(i as int, s@.len() as int);
        if crate::text::matches_at(s, &npm, i) {
            assert(rest.subrange(0, 3) == s@.subrange(i as int, i + 3));
            push_all(&mut out, pm);
            assert(rest.skip(3) == s@.subrange(i + 3, s@.len() as int));
            i += 3;
        } else {
            assert(!crate::text::starts_with(rest, seq!['n', 'p', 'm'])) by {
                if crate::text::starts_with(rest, seq!['n', 'p', 'm']) {
                    assert(rest.subrange(0, 3) == s@.subrange(i as int, i + 3));
                }
            }
            out.push(s[i]);
            assert(rest.drop_first() == s@.subrange(i + 1, s@.len() as int));
            i += 1;
        }
    }
    assert(out@ + Seq::<char>::empty() == out@);
    out
}

impl FrontendApp {
    /// The Procfile command for the app: `cd <path> && <command>`, the command
    /// given or the framework's, run with the app's package manager.
    pub fn generate_procfile_entry(&self, dev_command_override: Option<&str>) -> (r: Option<String>)
        ensures
            !self.detected ==> r is None,
            self.detected ==> match dev_command_override {
                Some(c) => r matches Some(e) && e@ == "cd "@ + self.path@ + " && "@ + c@,
                None => match self.framework {
                    Some(f) => r matches Some(e) && e@ == "cd "@ + self.path@ + " && "@ + (if crate::text::starts_with(
                        dev_command_of(f),
                        "npm "@,
                    ) {
                        replace_npm(dev_command_of(f), run_command_of(self.package_manager))
                    } else {
                        dev_command_of(f)
                    }),
                    None => r is None,
                },
            },
    {
        if !self.detected {
            return None;
        }
        let command: Vec<char> = match dev_command_override {
            Some(c) => chars_of(c),
            None => match self.framework {
                Some(f) => {
                    let base = chars_of(f.dev_command().as_str());
                    let pm = chars_of(self.package_manager.run_command());
                    let prefix = chars_of("npm ");
                    if crate::text::has_prefix(&base, &prefix) {
                        replace_npm_exec(&base, &pm)
                    } else {
                        base
                    }
                },
                None => {
                    return None;
                },
            },
        };
        let mut out: Vec<char> = Vec::new();
        push_str(&mut out, "cd ");
        push_str(&mut out, self.path.as_str());
        push_str(&mut out, " && ");
        push_all(&mut out, &command);
        Some(string_of(&out))
    }
}

/// What was found of a Rails application.
#[derive(Debug, Clone)]
pub struct RailsApp {
    pub detected: bool,
    pub database: Option<String>,
    pub background_job: Option<String>,
    pub asset_pipeline: Option<String>,
}

/// The Procfile of a Rails app: the web server, then a worker for a known
/// job framework, then the Vite dev server when Vite builds the assets.
pub open spec fn rails_procfile(app: RailsApp, port: u16) -> Seq<char> {
    "web: bundle exec rails server -p "@ + decimal(port as nat) + "\n"@ + (match app.background_job {
        Some(j) => if j@ == "sidekiq"@ {
            "worker: bundle exec sidekiq\n"@
        } else if j@ == "good_job"@ {
            "worker: bundle exec good_job start\n"@
        } else if j@ == "solid_queue"@ {
            "worker: bundle exec rake solid_queue:start\n"@
        } else {
            Seq::empty()
        },
        None => Seq::empty(),
    }) + (match app.asset_pipeline {
        Some(a) => if a@ == "vite"@ { "vite: bin/vite dev\n"@ } else { Seq::empty() },
        None => Seq::empty(),
    })
}

fn is_named(s: &String, t: &str) -> (r: bool)
    ensures
        r == (s@ == t@),
{
    let a = chars_of(s.as_str());
    let b = chars_of(t);
    crate::text::same_chars(&a, &b)
}

impl RailsApp {
    /// The Procfile text; the web server listens on `port_override` or 3000.
    pub fn generate_procfile(&self, port_override: Option<u16>) -> (r: String)
        ensures
            r@ == rails_procfile(*self, match port_override {
                Some(p) => p,
                None => 3000u16,
            }),
    {
        let port: u16 = match port_override {
            Some(p) => p,
            None => 3000,
        };
        let mut out: Vec<char> = Vec::new();
        push_str(&mut out, "web: bundle exec rails server -p ");
        push_decimal(&mut out, port as u64);
        push_str(&mut out, "\n");
        let ghost head = out@;
        match &self.background_job {
            Some(j) => {
                if is_named(j, "sidekiq") {
                    push_str(&mut out, "worker: bundle exec sidekiq\n");
                } else if is_named(j, "good_job") {
                    push_str(&mut out, "worker: bundle exec good_job start\n");
                } else if is_named(j, "solid_queue") {
                    push_str(&mut out, "worker: bundle exec rake solid_queue:start\n");
                }
            },
            None => {},
        }
        let ghost mid = out@;
        match &self.asset_pipeline {
            Some(a) => {
                if is_named(a, "vite") {
                    push_str(&mut out, "vite: bin/vite dev\n");
                }
            },
            None => {},
        }
        assert(out@ =~= rails_procfile(*self, port));
        string_of(&out)
    }
}

} // verus!

verus! {

/// Some entry of `files` is `name`.
pub open spec fn has_file(files: Seq<String>, name: &str) -> bool {
    exists|k: int| 0 <= k < files.len() && #[trigger] files[k]@ == name@
}

/// The framework a project directory's config files (and its `package.json`
/// text) point to, checked in a fixed order.
pub open spec fn framework_from(files: Seq<String>, package_json: Seq<char>) -> Option<FrontendFramework> {
    if has_file(files, "next.config.js") || has_file(files, "next.config.mjs") || has_file(files, "next.config.ts") {
        Some(FrontendFramework::NextJs)
    } else if has_file(files, "nuxt.config.js") || has_file(files, "nuxt.config.ts") {
        Some(FrontendFramework::NuxtJs)
    } else if has_file(files, "svelte.config.js") {
        Some(FrontendFramework::SvelteKit)
    } else if has_file(files, "remix.config.js") {
        Some(FrontendFramework::Remix)
    } else if has_file(files, "astro.config.mjs") || has_file(files, "astro.config.js") {
        Some(FrontendFramework::Astro)
    } else if has_file(files, "vite.config.js") || has_file(files, "vite.config.ts") {
        Some(FrontendFramework::Vite)
    } else if has_file(files, "angular.json") {
        Some(FrontendFramework::Angular)
    } else if has_file(files, "vue.config.js") {
        Some(FrontendFramework::VueCli)
    } else if crate::text::contains(package_json, "react-scripts"@) {
        Some(FrontendFramework::CreateReactApp)
    } else {
        None
    }
}

fn file_present(files: &Vec<String>, name: &str) -> (r: bool)
    ensures
        r == has_file(files@, name),
{
    let n = chars_of(name);
    let mut i: usize = 0;
    while i < files.len()
        invariant
            i <= files@.len(),
            n@ == name@,
            forall|k: int| 0 <= k < i ==> #[trigger] files@[k]@ != name@,
        decreases files.len() - i,
    {
        let f = chars_of(files[i].as_str());
        if crate::text::same_chars(&f, &n) {
            return true;
        }
        i += 1;
    }
    false
}

impl FrontendFramework {
    /// The framework of a directory holding the files named in `files`, whose
    /// `package.json` reads `package_json`.
    pub fn detect_from(files: &Vec<String>, package_json: &str) -> (r: Option<FrontendFramework>)
        ensures
            r == framework_from(files@, package_json@),
    {
        if file_present(files, "next.config.js") || file_present(files, "next.config.mjs") || file_present(
            files,
            "next.config.ts",
        ) {
            Some(FrontendFramework::NextJs)
        } else if file_present(files, "nuxt.config.js") || file_present(files, "nuxt.config.ts") {
            Some(FrontendFramework::NuxtJs)
        } else if file_present(files, "svelte.config.js") {
            Some(FrontendFramework::SvelteKit)
        } else if file_present(files, "remix.config.js") {
            Some(FrontendFramework::Remix)
        } else if file_present(files, "astro.config.mjs") || file_present(files, "astro.config.js") {
            Some(FrontendFramework::Astro)
        } else if file_present(files, "vite.config.js") || file_present(files, "vite.config.ts") {
            Some(FrontendFramework::Vite)
        } else if file_present(files, "angular.json") {
            Some(FrontendFramework::Angular)
        } else if file_present(files, "vue.config.js") {
            Some(FrontendFramework::VueCli)
        } else {
            let p = chars_of(package_json);
            let k = chars_of("react-scripts");
            if crate::text::has(&p, &k) {
                Some(FrontendFramework::CreateReactApp)
            } else {
                None
            }
        }
    }
}

impl FrontendApp {
    /// The app in directory `path`, from the files it holds: detected when it
    /// has a `package.json` and a known framework, with the package manager
    /// its lock files name.
    pub fn from_files(path: &str, files: &Vec<String>, package_json: &str) -> (r: Option<FrontendApp>)
        ensures
            match r {
                Some(app) => {
                    &&& has_file(files@, "package.json")
                    &&& app.detected
                    &&& app.path@ == path@
                    &&& app.framework is Some && app.framework == framework_from(files@, package_json@)
                    &&& app.package_manager == if has_file(files@, "bun.lockb") {
                        PackageManager::Bun
                    } else if has_file(files@, "pnpm-lock.yaml") {
                        PackageManager::Pnpm
                    } else if has_file(files@, "yarn.lock") {
                        PackageManager::Yarn
                    } else {
                        PackageManager::Npm
                    }
                },
                None => !has_file(files@, "package.json") || framework_from(files@, package_json@) is None,
            },
    {
        if !file_present(files, "package.json") {
            return None;
        }
        match FrontendFramework::detect_from(files, package_json) {
            Some(f) => Some(
                FrontendApp {
                    detected: true,
                    framework: Some(f),
                    path: path.to_owned(),
                    package_manager: PackageManager::from_lock_files(
                        file_present(files, "bun.lockb"),
                        file_present(files, "pnpm-lock.yaml"),
                        file_present(files, "yarn.lock"),
                    ),
                },
            ),
            None => None,
        }
    }

    /// The app that no directory held.
    pub fn not_found() -> (r: FrontendApp)
        ensures
            !r.detected && r.framework is None && r.path@.len() == 0 && r.package_manager == PackageManager::Npm,
    {
        FrontendApp { detected: false, framework: None, path: String::new(), package_manager: PackageManager::Npm }
    }
}

} // verus!

verus! {

pub open spec fn mentions(s: Seq<char>, t: &str) -> bool {
    crate::text::contains(s, t@)
}

/// The database adapter a `config/database.yml` names.
pub open spec fn database_of(yml: Seq<char>) -> Option<Seq<char>> {
    if mentions(yml, "postgresql") {
        Some("postgresql"@)
    } else if mentions(yml, "mysql") {
        Some("mysql"@)
    } else if mentions(yml, "sqlite") {
        Some("sqlite"@)
    } else {
        None
    }
}

/// The job framework a Gemfile requires.
pub open spec fn job_framework_of(gemfile: Seq<char>) -> Option<Seq<char>> {
    if mentions(gemfile, "gem \"sidekiq\"") || mentions(gemfile, "gem 'sidekiq'") {
        Some("sidekiq"@)
    } else if mentions(gemfile, "gem \"good_job\"") || mentions(gemfile, "gem 'good_job'") {
        Some("good_job"@)
    } else if mentions(gemfile, "gem \"solid_queue\"") || mentions(gemfile, "gem 'solid_queue'") {
        Some("solid_queue"@)
    } else {
        None
    }
}

/// The asset pipeline a Gemfile requires.
pub open spec fn asset_pipeline_of(gemfile: Seq<char>) -> Option<Seq<char>> {
    if mentions(gemfile, "gem \"vite_rails\"") || mentions(gemfile, "gem 'vite_rails'") {
        Some("vite"@)
    } else if mentions(gemfile, "gem \"propshaft\"") || mentions(gemfile, "gem 'propshaft'") {
        Some("propshaft"@)
    } else if mentions(gemfile, "gem \"sprockets\"") || mentions(gemfile, "gem 'sprockets'") {
        Some("sprockets"@)
    } else {
        None
    }
}

fn mentions_exec(s: &[char], t: &str) -> (r: bool)
    ensures
        r == mentions(s@, t),
{
    let tc = chars_of(t);
    crate::text::has(s, &tc)
}

pub open spec fn opt_is(o: Option<String>, t: Option<Seq<char>>) -> bool {
    match (o, t) {
        (Some(a), Some(b)) => a@ == b,
        (None, None) => true,
        _ => false,
    }
}

impl RailsApp {
    /// What a project directory shows of a Rails app: it is one when it has a
    /// Gemfile and `config/application.rb`; the Gemfile and `config/database.yml`
    /// texts, where readable, name the database, job framework and assets.
    pub fn from_files(is_rails: bool, gemfile: Option<&str>, database_yml: Option<&str>) -> (r: RailsApp)
        ensures
            r.detected == is_rails,
            !is_rails ==> r.database is None && r.background_job is None && r.asset_pipeline is None,
            is_rails ==> opt_is(r.database, match database_yml {
                Some(y) => database_of(y@),
                None => None,
            }),
            is_rails ==> opt_is(r.background_job, match gemfile {
                Some(g) => job_framework_of(g@),
                None => None,
            }),
            is_rails ==> opt_is(r.asset_pipeline, match gemfile {
                Some(g) => asset_pipeline_of(g@),
                None => None,
            }),
    {
        if !is_rails {
            return RailsApp { detected: false, database: None, background_job: None, asset_pipeline: None };
        }
        let database = match database_yml {
            Some(y) => {
                let c = chars_of(y);
                if mentions_exec(&c, "postgresql") {
                    Some("postgresql".to_owned())
                } else if mentions_exec(&c, "mysql") {
                    Some("mysql".to_owned())
                } else if mentions_exec(&c, "sqlite") {
                    Some("sqlite".to_owned())
                } else {
                    None
                }
            },
            None => None,
        };
        let (background_job, asset_pipeline) = match gemfile {
            Some(g) => {
                let c = chars_of(g);
                let job = if mentions_exec(&c, "gem \"sidekiq\"") || mentions_exec(&c, "gem 'sidekiq'") {
                    Some("sidekiq".to_owned())
                } else if mentions_exec(&c, "gem \"good_job\"") || mentions_exec(&c, "gem 'good_job'") {
                    Some("good_job".to_owned())
                } else if mentions_exec(&c, "gem \"solid_queue\"") || mentions_exec(&c, "gem 'solid_queue'") {
                    Some("solid_queue".to_owned())
                } else {
                    None
                };
                let assets = if mentions_exec(&c, "gem \"vite_rails\"") || mentions_exec(&c, "gem 'vite_rails'") {
                    Some("vite".to_owned())
                } else if mentions_exec(&c, "gem \"propshaft\"") || mentions_exec(&c, "gem 'propshaft'") {
                    Some("propshaft".to_owned())
                } else if mentions_exec(&c, "gem \"sprockets\"") || mentions_exec(&c, "gem 'sprockets'") {
                    Some("sprockets".to_owned())
                } else {
                    None
                };
                (job, assets)
            },
            None => (None, None),
        };
        RailsApp { detected: true, database, background_job, asset_pipeline }
    }
}

} // verus!

verus! {

#[derive(Debug, Clone)]
pub struct PackageManagerInfo {
    pub name: String,
    pub version: String,
}

/// Tool versions and the like found for the project.
#[derive(Debug, Clone)]
pub struct EnvironmentInfo {
    pub current_path: String,
    pub ruby_version: Option<String>,
    pub node_version: Option<String>,
    pub package_manager: Option<PackageManagerInfo>,
    pub rails_version: Option<String>,
    pub database: Option<String>,
}

pub open spec fn opt_segment(o: Option<String>, icon: &str) -> Seq<Seq<char>> {
    match o {
        Some(v) => seq![icon@ + v@],
        None => Seq::empty(),
    }
}

fn push_opt_segment(out: &mut Vec<String>, o: &Option<String>, icon: &str)
    ensures
        texts_of(final(out)@) == texts_of(old(out)@) + opt_segment(*o, icon),
{
    match o {
        Some(v) => {
            let mut c = chars_of(icon);
            push_str(&mut c, v.as_str());
            let ghost before = texts_of(out@);
            out.push(string_of(&c));
            assert(texts_of(out@) =~= before + opt_segment(*o, icon));
        },
        None => {
            assert(texts_of(out@) =~= texts_of(out@) + opt_segment(*o, icon));
        },
    }
}

pub open spec fn texts_of(v: Seq<String>) -> Seq<Seq<char>> {
    v.map_values(|s: String| s@)
}

impl EnvironmentInfo {
    /// The status-line segments: the path, then each known version, the
    /// package manager and the database, each behind its icon.
    pub fn format_segment(&self) -> (r: Vec<String>)
        ensures
            texts_of(r@) == seq!["📁 "@ + self.current_path@] + opt_segment(self.ruby_version, "💎 ") + opt_segment(
                self.rails_version,
                "🛤️ ",
            ) + opt_segment(self.node_version, "⬢ ") + (match self.package_manager {
                Some(pm) => seq!["📦 "@ + pm.name@ + " "@ + pm.version@],
                None => Seq::empty(),
            }) + opt_segment(self.database, "🗄️ "),
    {
        let mut out: Vec<String> = Vec::new();
        let mut p = chars_of("📁 ");
        push_str(&mut p, self.current_path.as_str());
        out.push(string_of(&p));
        assert(texts_of(out@) =~= seq!["📁 "@ + self.current_path@]);
        push_opt_segment(&mut out, &self.ruby_version, "💎 ");
        push_opt_segment(&mut out, &self.rails_version, "🛤️ ");
        push_opt_segment(&mut out, &self.node_version, "⬢ ");
        let ghost before = texts_of(out@);
        match &self.package_manager {
            Some(pm) => {
                let mut c = chars_of("📦 ");
                push_str(&mut c, pm.name.as_str());
                push_str(&mut c, " ");
                push_str(&mut c, pm.version.as_str());
                out.push(string_of(&c));
                assert(texts_of(out@) =~= before + seq!["📦 "@ + pm.name@ + " "@ + pm.version@]);
            },
            None => {
                assert(texts_of(out@) =~= before + Seq::<Seq<char>>::empty());
            },
        }
        push_opt_segment(&mut out, &self.database, "🗄️ ");
        out
    }
}

} // verus!

verus! {

/// The `n`th whitespace-separated word of `s` (counting from 0).
pub open spec fn nth_word(s: Seq<char>, n: nat) -> Option<Seq<char>>
    decreases n, s.len(),
{
    match crate::database::first_token(s) {
        None => None,
        Some(w) => if n == 0 {
            Some(w)
        } else {
            let t = trim_start_seq(s);
            if w.len() == 0 || w.len() > t.len() {
                None
            } else {
                nth_word(t.skip(w.len() as int), (n - 1) as nat)
            }
        },
    }
}

pub open spec fn trim_start_seq(s: Seq<char>) -> Seq<char> {
    crate::text::trim_start(s)
}

/// The whitespace-separated word of `s` at position `skip`.
fn word_after(s: &[char], skip: usize) -> (r: Option<Vec<char>>)
    ensures
        match r {
            Some(w) => nth_word(s@, skip as nat) == Some(w@),
            None => nth_word(s@, skip as nat) is None,
        },
    decreases skip,
{
    let w = match crate::command::first_word(s) {
        Some(w) => w,
        None => return None,
    };
    if skip == 0 {
        return Some(w);
    }
    let lo = crate::text::trim_start_index(s);
    let n = s.len();
    let t = slice_vec(s, lo, n);
    if w.len() == 0 || w.len() > t.len() {
        return None;
    }
    let rest = slice_vec(&t, w.len(), t.len());
    assert(rest@ == t@.skip(w@.len() as int));
    word_after(&rest, skip - 1)
}

/// The Ruby version in `ruby --version` output: the second word, up to any `p`.
pub open spec fn ruby_version_of(out: Seq<char>) -> Option<Seq<char>> {
    match nth_word(out, 1) {
        Some(v) => match index_of(v, seq!['p'], 0) {
            Some(p) => Some(v.take(p)),
            None => Some(v),
        },
        None => None,
    }
}

/// The Node version in `node --version` output: trimmed, without a leading `v`;
/// the output as it is when it has none.
pub open spec fn node_version_of(out: Seq<char>) -> Seq<char> {
    let t = trim(out);
    if t.len() > 0 && t[0] == 'v' {
        t.drop_first()
    } else {
        out
    }
}

/// The database a `config/database.yml` (`from_gemfile` false) or Gemfile
/// text points to.
pub open spec fn database_name_of(text: Seq<char>, from_gemfile: bool) -> Option<Seq<char>> {
    let pg: &str = if from_gemfile { "pg" } else { "postgresql" };
    let my: &str = if from_gemfile { "mysql2" } else { "mysql" };
    if contains(text, pg@) {
        Some("PostgreSQL"@)
    } else if contains(text, my@) {
        Some("MySQL"@)
    } else if contains(text, "sqlite3"@) {
        Some("SQLite"@)
    } else {
        None
    }
}

impl EnvironmentInfo {
    pub fn ruby_version_from(output: &str) -> (r: Option<String>)
        ensures
            match ruby_version_of(output@) {
                Some(v) => r matches Some(s) && s@ == v,
                None => r is None,
            },
    {
        let c = chars_of(output);
        match word_after(&c, 1) {
            Some(v) => {
                let p = ['p'];
                assert(p@ == seq!['p']);
                match find_in(&v, &p, 0) {
                    Some(k) => {
                        let h = slice_vec(&v, 0, k);
                        assert(h@ == v@.take(k as int));
                        Some(string_of(&h))
                    },
                    None => Some(string_of(&v)),
                }
            },
            None => None,
        }
    }

    pub fn rails_version_from(output: &str) -> (r: Option<String>)
        ensures
            match nth_word(output@, 1) {
                Some(v) => r matches Some(s) && s@ == v,
                None => r is None,
            },
    {
        let c = chars_of(output);
        match word_after(&c, 1) {
            Some(v) => Some(string_of(&v)),
            None => None,
        }
    }

    pub fn node_version_from(output: &str) -> (r: String)
        ensures
            r@ == node_version_of(output@),
    {
        let c = chars_of(output);
        let t = trimmed(&c);
        if t.len() > 0 && t[0] == 'v' {
            let n = t.len();
            let rest = slice_vec(&t, 1, n);
            assert(rest@ == t@.drop_first());
            string_of(&rest)
        } else {
            output.to_owned()
        }
    }

    pub fn database_from(text: &str, from_gemfile: bool) -> (r: Option<String>)
        ensures
            match database_name_of(text@, from_gemfile) {
                Some(d) => r matches Some(s) && s@ == d,
                None => r is None,
            },
    {
        let c = chars_of(text);
        let pg = if from_gemfile { "pg" } else { "postgresql" };
        let my = if from_gemfile { "mysql2" } else { "mysql" };
        if crate::text::has(&c, &chars_of(pg)) {
            Some("PostgreSQL".to_owned())
        } else if crate::text::has(&c, &chars_of(my)) {
            Some("MySQL".to_owned())
        } else if crate::text::has(&c, &chars_of("sqlite3")) {
            Some("SQLite".to_owned())
        } else {
            None
        }
    }
}

} // verus!
