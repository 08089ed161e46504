//! Registration and dispatch of palette commands by name or alias.
use vstd::prelude::*;
use crate::command::CommandMetadata;
use crate::text::{chars_of, decimal, push_decimal, push_str, same_chars, string_of};

verus! {

/// What a command may act on; the application implements it.
pub trait CommandContext {}

/// A palette command; the application implements it for each command.
pub trait Command {
    fn name(&self) -> &str;

    fn aliases(&self) -> Vec<&str> {
        Vec::new()
    }

    fn description(&self) -> &str;

    fn usage(&self) -> &str;

    fn arg_hints(&self) -> Vec<&str> {
        Vec::new()
    }

    fn min_args(&self) -> usize {
        0
    }

    fn max_args(&self) -> Option<usize> {
        None
    }

    fn execute<X: CommandContext>(&self, args: Vec<String>, ctx: &mut X) -> Result<String, String>;
}

fn owned_all(v: &Vec<&str>) -> (r: Vec<String>)
    ensures
        r@.len() == v@.len(),
        forall|k: int| 0 <= k < r@.len() ==> #[trigger] r@[k]@ == v@[k]@,
{
    let mut r: Vec<String> = Vec::new();
    let mut i: usize = 0;
    while i < v.len()
        invariant
            i <= v@.len(),
            r@.len() == i,
            forall|k: int| 0 <= k < i ==> #[trigger] r@[k]@ == v@[k]@,
        decreases v.len() - i,
    {
        r.push(v[i].to_owned());
        i += 1;
    }
    r
}

/// The error for `count` arguments against the bounds `min`..`max`, if any.
pub open spec fn argument_error(count: usize, min: usize, max: Option<usize>, usage: Seq<char>) -> Option<Seq<char>> {
    if count < min {
        Some("Too few arguments. Expected at least "@ + decimal(min as nat) + ", got "@ + decimal(count as nat)
            + ".\nUsage: "@ + usage)
    } else {
        match max {
            Some(m) => if count > m {
                Some("Too many arguments. Expected at most "@ + decimal(m as nat) + ", got "@ + decimal(count as nat)
                    + ".\nUsage: "@ + usage)
            } else {
                None
            },
            None => None,
        }
    }
}

/// Checks an argument count against a command's bounds.
pub fn validate_args(count: usize, min: usize, max: Option<usize>, usage: &str) -> (r: Result<(), String>)
    ensures
        match argument_error(count, min, max, usage@) {
            Some(m) => r matches Err(e) && e@ == m,
            None => r is Ok,
        },
{
    if count < min {
        let mut m: Vec<char> = Vec::new();
        push_str(&mut m, "Too few arguments. Expected at least ");
        push_decimal(&mut m, min as u64);
        push_str(&mut m, ", got ");
        push_decimal(&mut m, count as u64);
        push_str(&mut m, ".\nUsage: ");
        push_str(&mut m, usage);
        return Err(string_of(&m));
    }
    match max {
        Some(mx) => {
            if count > mx {
                let mut m: Vec<char> = Vec::new();
                push_str(&mut m, "Too many arguments. Expected at most ");
                push_decimal(&mut m, mx as u64);
                push_str(&mut m, ", got ");
                push_decimal(&mut m, count as u64);
                push_str(&mut m, ".\nUsage: ");
                push_str(&mut m, usage);
                return Err(string_of(&m));
            }
        },
        None => {},
    }
    Ok(())
}

/// The argument bounds and usage a command gave when registered.
pub struct ArgBounds {
    pub min: usize,
    pub max: Option<usize>,
    pub usage: String,
}

/// The registered commands, their names and aliases.
pub struct CommandRegistry<C: Command> {
    pub commands: Vec<C>,
    /// The name each command had when registered, by position.
    pub names: Vec<String>,
    /// The argument bounds each command had when registered, by position.
    pub bounds: Vec<ArgBounds>,
    /// Aliases with the position of their command, in order of registration.
    pub aliases: Vec<(String, usize)>,
    pub metadata: Vec<CommandMetadata>,
}

/// The position of the command named `name`, if any.
pub open spec fn name_index(names: Seq<String>, name: Seq<char>) -> Option<int> {
    if exists|k: int| 0 <= k < names.len() && #[trigger] names[k]@ == name {
        Some(choose|k: int| 0 <= k < names.len() && #[trigger] names[k]@ == name)
    } else {
        None
    }
}

/// The command of the latest alias `name` among the first `n` aliases.
pub open spec fn alias_target(aliases: Seq<(String, usize)>, name: Seq<char>, n: int) -> Option<int>
    decreases n,
{
    if n <= 0 || n > aliases.len() {
        None
    } else if aliases[n - 1].0@ == name {
        Some(aliases[n - 1].1 as int)
    } else {
        alias_target(aliases, name, n - 1)
    }
}

/// The command `name` stands for: the command of that name, else the one
/// whose alias it most recently was.
pub open spec fn lookup(names: Seq<String>, aliases: Seq<(String, usize)>, name: Seq<char>) -> Option<int> {
    match name_index(names, name) {
        Some(k) => Some(k),
        None => alias_target(aliases, name, aliases.len() as int),
    }
}

/// The error `execute` gives of its own for `name` and `count` arguments.
pub open spec fn registry_error<C: Command>(reg: CommandRegistry<C>, name: Seq<char>, count: usize) -> Option<Seq<char>> {
    match lookup(reg.names@, reg.aliases@, name) {
        None => Some("Unknown command: '"@ + name + "'. Type /help for available commands."@),
        Some(k) => {
            let b = reg.bounds@[k];
            argument_error(count, b.min, b.max, b.usage@)
        },
    }
}

impl<C: Command> CommandRegistry<C> {
    /// Names are distinct, each command has its bounds, and aliases point at
    /// registered commands.
    pub open spec fn wf(&self) -> bool {
        &&& self.commands@.len() == self.names@.len()
        &&& self.bounds@.len() == self.names@.len()
        &&& forall|a: int, b: int|
            0 <= a < self.names@.len() && 0 <= b < self.names@.len() && a != b ==> #[trigger] self.names@[a]@
                != #[trigger] self.names@[b]@
        &&& forall|k: int| 0 <= k < self.aliases@.len() ==> (#[trigger] self.aliases@[k]).1 < self.commands@.len()
    }

    pub fn new() -> (r: CommandRegistry<C>)
        ensures
            r.wf(),
            r.commands@.len() == 0,
            r.aliases@.len() == 0,
            r.metadata@.len() == 0,
    {
        CommandRegistry {
            commands: Vec::new(),
            names: Vec::new(),
            bounds: Vec::new(),
            aliases: Vec::new(),
            metadata: Vec::new(),
        }
    }

    fn name_position(&self, name: &[char]) -> (r: Option<usize>)
        requires
            self.wf(),
        ensures
            as_index(r) == name_index(self.names@, name@),
            match r {
                Some(k) => k < self.commands@.len(),
                None => true,
            },
    {
        let mut i: usize = 0;
        while i < self.names.len()
            invariant
                self.wf(),
                i <= self.names@.len(),
                forall|k: int| 0 <= k < i ==> #[trigger] self.names@[k]@ != name@,
            decreases self.names.len() - i,
        {
            let c = chars_of(self.names[i].as_str());
            if same_chars(&c, name) {
                assert(name_index(self.names@, name@) == Some(i as int)) by {
                    let k = choose|k: int| 0 <= k < self.names@.len() && #[trigger] self.names@[k]@ == name@;
                    if k != i {
                        assert(self.names@[k]@ != self.names@[i as int]@);
                    }
                }
                return Some(i);
            }
            i += 1;
        }
        None
    }

    /// Adds a command, replacing one registered under the same name, and
    /// records its metadata, its argument bounds and its aliases, which point
    /// at it.
    pub fn register(&mut self, command: C)
        requires
            old(self).wf(),
        ensures
            final(self).wf(),
            final(self).metadata@.drop_last() == old(self).metadata@,
            final(self).metadata@.len() == old(self).metadata@.len() + 1,
            ({
                let m = final(self).metadata@.last();
                let pos = name_index(final(self).names@, m.name@);
                &&& pos is Some
                &&& final(self).commands@[pos->0] == command
                &&& forall|k: int| 0 <= k < old(self).commands@.len() && k != pos->0
                    ==> #[trigger] final(self).commands@[k] == old(self).commands@[k]
                &&& final(self).aliases@.len() == old(self).aliases@.len() + m.aliases@.len()
                &&& final(self).aliases@.take(old(self).aliases@.len() as int) == old(self).aliases@
                &&& forall|j: int| 0 <= j < m.aliases@.len() ==> (#[trigger] final(self).aliases@[old(self).aliases@.len() + j]).0@
                    == m.aliases@[j]@ && final(self).aliases@[old(self).aliases@.len() + j].1 == pos->0
                &&& final(self).bounds@[pos->0].usage@ == m.usage@
            }),
    {
        let name = command.name().to_owned();
        let alias_list = command.aliases();
        let aliases = owned_all(&alias_list);
        let hints_list = command.arg_hints();
        let hints = owned_all(&hints_list);
        let usage = command.usage().to_owned();
        let bounds = ArgBounds { min: command.min_args(), max: command.max_args(), usage: usage.clone() };
        let meta = CommandMetadata {
            name: name.clone(),
            aliases: owned_all(&alias_list),
            description: command.description().to_owned(),
            usage,
            arg_hints: hints,
        };
        let ghost meta_aliases = meta.aliases@;
        assert(forall|k: int| 0 <= k < aliases@.len() ==> #[trigger] aliases@[k]@ == meta_aliases[k]@);
        self.metadata.push(meta);
        let nc = chars_of(name.as_str());
        let ghost old_commands = self.commands@;
        let pos = match self.name_position(&nc) {
            Some(k) => {
                self.commands.set(k, command);
                self.bounds.set(k, bounds);
                assert(self.names@[k as int]@ == self.metadata@.last().name@);
                k
            },
            None => {
                let ghost before = self.names@;
                self.commands.push(command);
                self.names.push(name);
                self.bounds.push(bounds);
                assert forall|a: int, b: int|
                    0 <= a < self.names@.len() && 0 <= b < self.names@.len() && a != b
                        implies #[trigger] self.names@[a]@ != #[trigger] self.names@[b]@ by {
                    if a < before.len() && b < before.len() {
                    } else if a < before.len() {
                        assert(self.names@[b]@ == nc@);
                        if self.names@[a]@ == nc@ {
                            assert(name_index(before, nc@) is Some);
                        }
                    } else {
                        assert(self.names@[a]@ == nc@);
                        if self.names@[b]@ == nc@ {
                            assert(name_index(before, nc@) is Some);
                        }
                    }
                }
                assert(self.names@[self.names@.len() - 1]@ == self.metadata@.last().name@);
                self.commands.len() - 1
            },
        };
        assert(name_index(self.names@, self.metadata@.last().name@) == Some(pos as int)) by {
            let k = choose|k: int| 0 <= k < self.names@.len() && #[trigger] self.names@[k]@ == self.metadata@.last().name@;
            if k != pos {
                assert(self.names@[k]@ != self.names@[pos as int]@);
            }
        }
        let ghost start = self.aliases@;
        let mut i: usize = 0;
        while i < aliases.len()
            invariant
                self.wf(),
                pos < self.commands@.len(),
                i <= aliases@.len(),
                aliases@.len() == meta_aliases.len(),
                forall|k: int| 0 <= k < aliases@.len() ==> #[trigger] aliases@[k]@ == meta_aliases[k]@,
                meta_aliases == self.metadata@.last().aliases@,
                self.metadata@.drop_last() == old(self).metadata@,
                self.metadata@.len() == old(self).metadata@.len() + 1,
                name_index(self.names@, self.metadata@.last().name@) == Some(pos as int),
                self.commands@[pos as int] == command,
                forall|k: int| 0 <= k < old(self).commands@.len() && k != pos ==> #[trigger] self.commands@[k]
                    == old(self).commands@[k],
                self.bounds@[pos as int].usage@ == self.metadata@.last().usage@,
                start == old(self).aliases@,
                self.aliases@.len() == start.len() + i,
                self.aliases@.take(start.len() as int) == start,
                forall|j: int| 0 <= j < i ==> (#[trigger] self.aliases@[start.len() + j]).0@ == meta_aliases[j]@
                    && self.aliases@[start.len() + j].1 == pos,
            decreases aliases.len() - i,
        {
            let ghost before = self.aliases@;
            self.aliases.push((aliases[i].clone(), pos));
            assert(self.aliases@.take(start.len() as int) == before.take(start.len() as int));
            assert forall|j: int| 0 <= j < i + 1 implies (#[trigger] self.aliases@[start.len() + j]).0@ == meta_aliases[j]@
                && self.aliases@[start.len() + j].1 == pos by {
                if j < i {
                    assert(self.aliases@[start.len() + j] == before[start.len() + j]);
                }
            }
            i += 1;
        }
    }

    pub fn get_metadata(&self) -> (r: &Vec<CommandMetadata>)
        ensures
            r@ == self.metadata@,
    {
        &self.metadata
    }

    fn position(&self, name: &str) -> (r: Option<usize>)
        requires
            self.wf(),
        ensures
            as_index(r) == lookup(self.names@, self.aliases@, name@),
            match r {
                Some(k) => k < self.commands@.len(),
                None => true,
            },
    {
        let nc = chars_of(name);
        match self.name_position(&nc) {
            Some(k) => {
                return Some(k);
            },
            None => {},
        }
        let mut j: usize = self.aliases.len();
        while j > 0
            invariant
                self.wf(),
                j <= self.aliases@.len(),
                nc@ == name@,
                name_index(self.names@, name@) is None,
                alias_target(self.aliases@, name@, self.aliases@.len() as int) == alias_target(
                    self.aliases@,
                    name@,
                    j as int,
                ),
            decreases j,
        {
            let a = chars_of(self.aliases[j - 1].0.as_str());
            if same_chars(&a, &nc) {
                assert(self.aliases@[j - 1].1 < self.commands@.len());
                return Some(self.aliases[j - 1].1);
            }
            j -= 1;
        }
        None
    }

    /// The command `name` stands for, as `lookup` says.
    pub fn find(&self, name: &str) -> (r: Option<&C>)
        requires
            self.wf(),
        ensures
            match lookup(self.names@, self.aliases@, name@) {
                Some(k) => r matches Some(c) && *c == self.commands@[k],
                None => r is None,
            },
    {
        match self.position(name) {
            Some(k) => Some(&self.commands[k]),
            None => None,
        }
    }

    /// Runs the command `name` stands for with `args`, after checking their
    /// number against its bounds. Fails with the registry's own error, as
    /// `registry_error` says; otherwise the command's result is returned.
    pub fn execute<X: CommandContext>(&self, name: &str, args: Vec<String>, ctx: &mut X) -> (r: Result<String, String>)
        requires
            self.wf(),
        ensures
            match registry_error(*self, name@, args@.len() as usize) {
                Some(m) => r matches Err(e) && e@ == m,
                None => true,
            },
    {
        match self.position(name) {
            Some(k) => {
                let b = &self.bounds[k];
                let count = args.len();
                match validate_args(count, b.min, b.max, b.usage.as_str()) {
                    Ok(()) => self.commands[k].execute(args, ctx),
                    Err(e) => Err(e),
                }
            },
            None => {
                let mut m: Vec<char> = Vec::new();
                push_str(&mut m, "Unknown command: '");
                push_str(&mut m, name);
                push_str(&mut m, "'. Type /help for available commands.");
                Err(string_of(&m))
            },
        }
    }

    /// The names of the registered commands.
    pub fn all_names(&self) -> (r: Vec<String>)
        ensures
            r@ == self.names@,
    {
        let mut r: Vec<String> = Vec::new();
        let mut i: usize = 0;
        while i < self.names.len()
            invariant
                i <= self.names@.len(),
                r@ == self.names@.take(i as int),
            decreases self.names.len() - i,
        {
            r.push(self.names[i].clone());
            i += 1;
            assert(r@ =~= self.names@.take(i as int));
        }
        assert(self.names@.take(self.names@.len() as int) == self.names@);
        r
    }

    /// The names of all registrations, in order.
    pub fn primary_names(&self) -> (r: Vec<String>)
        ensures
            r@.len() == self.metadata@.len(),
            forall|k: int| 0 <= k < r@.len() ==> #[trigger] r@[k] == self.metadata@[k].name,
    {
        let mut r: Vec<String> = Vec::new();
        let mut i: usize = 0;
        while i < self.metadata.len()
            invariant
                i <= self.metadata@.len(),
                r@.len() == i,
                forall|k: int| 0 <= k < i ==> #[trigger] r@[k] == self.metadata@[k].name,
            decreases self.metadata.len() - i,
        {
            r.push(self.metadata[i].name.clone());
            i += 1;
        }
        r
    }
}

pub open spec fn as_index(r: Option<usize>) -> Option<int> {
    match r {
        Some(k) => Some(k as int),
        None => None,
    }
}

} // verus!
