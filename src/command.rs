//! Command line input: parsing `/name args` with quoted arguments, and
//! suggestions for a partly typed command name.
use vstd::prelude::*;
use crate::text::{
    chars_of, contains, lower_seq, occurs_at, slice_vec, starts_with, string_of, trim,
    trimmed,
};
use crate::database::{first_token, token_end};
use crate::history::texts;

verus! {

/// A command name with its arguments and the trimmed input they came from.
#[derive(Debug, Clone, PartialEq, Eq)]
pub struct ParsedCommand {
    pub name: String,
    pub args: Vec<String>,
    pub raw: String,
}

/// The tokens of `s`, split at spaces outside quotes. `quoted` holds inside a
/// quote opened by `q`; `cur` is the token being read, `done` those finished.
pub open spec fn tokens_from(s: Seq<char>, quoted: bool, q: char, cur: Seq<char>, done: Seq<Seq<char>>) -> Seq<Seq<char>>
    decreases s.len(),
{
    if s.len() == 0 {
        if cur.len() > 0 {
            done.push(cur)
        } else {
            done
        }
    } else {
        let ch = s[0];
        let rest = s.drop_first();
        if (ch == '"' || ch == '\'') && !quoted {
            tokens_from(rest, true, ch, cur, done)
        } else if ((ch == '"' || ch == '\'') && quoted && ch == q) || (ch == ' ' && !quoted) {
            let nq = if ch == ' ' { quoted } else { false };
            if cur.len() > 0 {
                tokens_from(rest, nq, q, Seq::empty(), done.push(cur))
            } else {
                tokens_from(rest, nq, q, cur, done)
            }
        } else {
            tokens_from(rest, quoted, q, cur.push(ch), done)
        }
    }
}

pub open spec fn tokens_of(s: Seq<char>) -> Seq<Seq<char>> {
    tokens_from(s, false, ' ', Seq::empty(), Seq::empty())
}

/// `s` without one leading `/`.
pub open spec fn without_slash(s: Seq<char>) -> Seq<char> {
    if s.len() > 0 && s[0] == '/' {
        s.drop_first()
    } else {
        s
    }
}

/// Parses command input.
pub struct CommandParser;

impl CommandParser {
    /// The command in `input`: after trimming and one leading `/`, the first
    /// token is the name and the others are the arguments.
    pub fn parse(input: &str) -> (r: ParsedCommand)
        ensures
            r.raw@ == trim(input@),
            ({
                let toks = tokens_of(without_slash(trim(input@)));
                if toks.len() == 0 {
                    r.name@.len() == 0 && r.args@.len() == 0
                } else {
                    r.name@ == toks[0] && texts(r.args@) == toks.drop_first()
                }
            }),
    {
        let c = chars_of(input);
        let t = trimmed(&c);
        let raw = string_of(&t);
        let start: usize = if t.len() > 0 && t[0] == '/' { 1 } else { 0 };
        let n = t.len();
        let ws = slice_vec(&t, start, n);
        assert(ws@ == without_slash(t@));
        let tokens = Self::tokenize_chars(&ws);
        if tokens.len() == 0 {
            return ParsedCommand { name: String::new(), args: Vec::new(), raw };
        }
        let mut args: Vec<String> = Vec::new();
        let mut i: usize = 1;
        assert(texts(args@) =~= texts(tokens@).subrange(1, 1));
        while i < tokens.len()
            invariant
                1 <= i <= tokens@.len(),
                texts(args@) == texts(tokens@).subrange(1, i as int),
            decreases tokens.len() - i,
        {
            let ghost before = texts(args@);
            args.push(tokens[i].clone());
            assert(texts(args@) =~= before.push(tokens@[i as int]@));
            assert(texts(tokens@).subrange(1, i + 1) =~= texts(tokens@).subrange(1, i as int).push(tokens@[i as int]@));
            i += 1;
        }
        assert(texts(tokens@).drop_first() =~= texts(tokens@).subrange(1, tokens@.len() as int));
        ParsedCommand { name: tokens[0].clone(), args, raw }
    }

    fn tokenize_chars(s: &[char]) -> (r: Vec<String>)
        ensures
            texts(r@) == tokens_of(s@),
    {
        let mut tokens: Vec<String> = Vec::new();
        let mut cur: Vec<char> = Vec::new();
        let mut quoted = false;
        let mut q = ' ';
        let mut i: usize = 0;
        assert(s@.subrange(0, s@.len() as int) == s@);
        assert(texts(tokens@) =~= Seq::<Seq<char>>::empty());
        assert(cur@ =~= Seq::<char>::empty());
        while i < s.len()
            invariant
                i <= s@.len(),
                tokens_from(s@.subrange(i as int, s@.len() as int), quoted, q, cur@, texts(tokens@)) == tokens_of(s@),
            decreases s.len() - i,
        {
            let ch = s[i];
            assert(s@.subrange(i as int, s@.len() as int).drop_first() == s@.subrange(i + 1, s@.len() as int));
            if (ch == '"' || ch == '\'') && !quoted {
                quoted = true;
                q = ch;
            } else if ((ch == '"' || ch == '\'') && quoted && ch == q) || (ch == ' ' && !quoted) {
                if ch != ' ' {
                    quoted = false;
                }
                if cur.len() > 0 {
                    let ghost before = texts(tokens@);
                    tokens.push(string_of(&cur));
                    assert(texts(tokens@) == before.push(cur@));
                    cur = Vec::new();
                }
            } else {
                cur.push(ch);
            }
            i += 1;
        }
        if cur.len() > 0 {
            let ghost before = texts(tokens@);
            tokens.push(string_of(&cur));
            assert(texts(tokens@) == before.push(cur@));
        }
        tokens
    }

    /// The tokens of `input`, split at spaces outside single or double quotes.
    pub fn tokenize(input: &str) -> (r: Vec<String>)
        ensures
            texts(r@) == tokens_of(input@),
    {
        let c = chars_of(input);
        Self::tokenize_chars(&c)
    }

    /// Whether the trimmed input starts with `/`.
    pub fn is_command(input: &str) -> (r: bool)
        ensures
            r == (trim(input@).len() > 0 && trim(input@)[0] == '/'),
    {
        let c = chars_of(input);
        let t = trimmed(&c);
        t.len() > 0 && t[0] == '/'
    }

    /// The first word after trimming and one leading `/`, or nothing.
    pub fn extract_partial_command(input: &str) -> (r: String)
        ensures
            r@ == match first_token(without_slash(trim(input@))) {
                Some(w) => w,
                None => Seq::empty(),
            },
    {
        let c = chars_of(input);
        let t = trimmed(&c);
        let start: usize = if t.len() > 0 && t[0] == '/' { 1 } else { 0 };
        let n = t.len();
        let ws = slice_vec(&t, start, n);
        assert(ws@ == without_slash(t@));
        match first_word(&ws) {
            Some(w) => string_of(&w),
            None => String::new(),
        }
    }
}

/// The first whitespace-separated word of `s`.
pub fn first_word(s: &[char]) -> (r: Option<Vec<char>>)
    ensures
        match r {
            Some(w) => first_token(s@) == Some(w@),
            None => first_token(s@) is None,
        },
{
    let lo = crate::text::trim_start_index(s);
    let n = s.len();
    let t = slice_vec(s, lo, n);
    if t.len() == 0 {
        return None;
    }
    let mut e: usize = 0;
    while e < t.len() && !crate::text::char_is_space(t[e])
        invariant
            e <= t@.len(),
            token_end(t@, 0) == token_end(t@, e as int),
        decreases t.len() - e,
    {
        e += 1;
    }
    let w = slice_vec(&t, 0, e);
    assert(w@ == t@.take(e as int));
    Some(w)
}

/// The outcome of running a command.
#[derive(Debug, Clone)]
pub enum ExecutionResult {
    Success(String),
    Error(String),
    NoOp,
}

impl ExecutionResult {
    pub fn is_success(&self) -> (r: bool)
        ensures
            r == (*self matches ExecutionResult::Success(_)),
    {
        match self {
            ExecutionResult::Success(_) => true,
            _ => false,
        }
    }

    /// The message of a success or an error.
    pub fn message(&self) -> (r: Option<&str>)
        ensures
            match *self {
                ExecutionResult::Success(m) => r matches Some(t) && t@ == m@,
                ExecutionResult::Error(m) => r matches Some(t) && t@ == m@,
                ExecutionResult::NoOp => r is None,
            },
    {
        match self {
            ExecutionResult::Success(m) => Some(m.as_str()),
            ExecutionResult::Error(m) => Some(m.as_str()),
            ExecutionResult::NoOp => None,
        }
    }
}

} // verus!

verus! {

/// What autocompletion knows of a command.
#[derive(Debug, Clone)]
pub struct CommandMetadata {
    pub name: String,
    pub aliases: Vec<String>,
    pub description: String,
    pub usage: String,
    pub arg_hints: Vec<String>,
}

/// A suggested completion with its relevance; higher scores match better.
#[derive(Debug, Clone, PartialEq, Eq)]
pub struct Suggestion {
    pub text: String,
    pub description: String,
    pub usage: String,
    pub score: usize,
}

impl Suggestion {
    pub fn new(text: String, description: String, usage: String, score: usize) -> (r: Suggestion)
        ensures
            r.text == text && r.description == description && r.usage == usage && r.score == score,
    {
        Suggestion { text, description, usage, score }
    }
}

pub open spec fn is_separator(c: char) -> bool {
    c == '_' || c == '-' || c == ' '
}

/// Some piece of `name`, split at `_`, `-` and spaces, starts with `p`.
pub open spec fn piece_starts_with(name: Seq<char>, p: Seq<char>) -> bool {
    (forall|k: int| 0 <= k < p.len() ==> !is_separator(#[trigger] p[k])) && exists|i: int|
        (i == 0 || (0 < i <= name.len() && is_separator(name[i - 1]))) && #[trigger] occurs_at(name, p, i)
}

/// `p` can be read in `name` in order, skipping characters of `name`.
pub open spec fn is_subsequence(p: Seq<char>, name: Seq<char>) -> bool
    decreases name.len(),
{
    if p.len() == 0 {
        true
    } else if name.len() == 0 {
        false
    } else if name[0] == p[0] {
        is_subsequence(p.drop_first(), name.drop_first())
    } else {
        is_subsequence(p, name.drop_first())
    }
}

/// How well `name` matches the lower-cased input `p`, if at all.
pub open spec fn match_score(name: Seq<char>, p: Seq<char>) -> Option<nat> {
    let n = lower_seq(name);
    if n == p {
        Some(1000)
    } else if starts_with(n, p) {
        Some(if p.len() <= 900 { (900 - p.len()) as nat } else { 0 })
    } else if piece_starts_with(n, p) {
        Some(800)
    } else if is_subsequence(p, n) {
        Some(700)
    } else if contains(n, p) {
        Some(600)
    } else {
        None
    }
}

} // verus!

verus! {

fn piece_starts_with_exec(name: &[char], p: &[char]) -> (r: bool)
    ensures
        r == piece_starts_with(name@, p@),
{
    let mut k: usize = 0;
    while k < p.len()
        invariant
            k <= p@.len(),
            forall|j: int| 0 <= j < k ==> !is_separator(#[trigger] p@[j]),
        decreases p.len() - k,
    {
        if p[k] == '_' || p[k] == '-' || p[k] == ' ' {
            return false;
        }
        k += 1;
    }
    let mut i: usize = 0;
    while i <= name.len()
        invariant
            i <= name@.len() + 1,
            forall|j: int| 0 <= j < p@.len() ==> !is_separator(#[trigger] p@[j]),
            forall|j: int| 0 <= j < i ==> !((j == 0 || (0 < j <= name@.len() && is_separator(name@[j - 1])))
                && #[trigger] occurs_at(name@, p@, j)),
        decreases name.len() + 1 - i,
    {
        let boundary = i == 0 || (name[i - 1] == '_' || name[i - 1] == '-' || name[i - 1] == ' ');
        if boundary && crate::text::matches_at(name, p, i) {
            return true;
        }
        if i == name.len() {
            assert forall|j: int| (j == 0 || (0 < j <= name@.len() && is_separator(name@[j - 1])))
                implies !#[trigger] occurs_at(name@, p@, j) by {
                if j > name@.len() {
                    assert(!occurs_at(name@, p@, j));
                }
            }
            return false;
        }
        i += 1;
    }
    false
}

fn is_subsequence_exec(p: &[char], name: &[char]) -> (r: bool)
    ensures
        r == is_subsequence(p@, name@),
{
    let mut i: usize = 0;
    let mut j: usize = 0;
    assert(p@.subrange(0, p@.len() as int) == p@);
    assert(name@.subrange(0, name@.len() as int) == name@);
    while j < name.len() && i < p.len()
        invariant
            i <= p@.len(),
            j <= name@.len(),
            is_subsequence(p@, name@) == is_subsequence(
                p@.subrange(i as int, p@.len() as int),
                name@.subrange(j as int, name@.len() as int),
            ),
        decreases name.len() - j,
    {
        assert(name@.subrange(j as int, name@.len() as int).drop_first() == name@.subrange(j + 1, name@.len() as int));
        assert(p@.subrange(i as int, p@.len() as int).drop_first() == p@.subrange(i + 1, p@.len() as int));
        if name[j] == p[i] {
            i += 1;
        }
        j += 1;
    }
    i == p.len()
}

/// The score of `name` against the lower-cased input `p`.
pub fn score_match(name: &str, p: &[char]) -> (r: Option<usize>)
    ensures
        match r {
            Some(v) => match_score(name@, p@) == Some(v as nat),
            None => match_score(name@, p@) is None,
        },
{
    let c = chars_of(name);
    let n = crate::text::to_lower(&c);
    if crate::text::same_chars(&n, p) {
        Some(1000)
    } else if crate::text::has_prefix(&n, p) {
        Some(if p.len() <= 900 { 900 - p.len() } else { 0 })
    } else if piece_starts_with_exec(&n, p) {
        Some(800)
    } else if is_subsequence_exec(p, &n) {
        Some(700)
    } else if crate::text::has(&n, p) {
        Some(600)
    } else {
        None
    }
}

/// Suggests command names for partial input.
pub struct AutocompleteEngine {
    pub commands: Vec<CommandMetadata>,
}

/// A candidate as text, description, usage and score.
pub type Candidate = (Seq<char>, Seq<char>, Seq<char>, nat);

pub open spec fn suggestion_view(s: Suggestion) -> Candidate {
    (s.text@, s.description@, s.usage@, s.score as nat)
}

/// The aliases of `c` among `aliases` that match `p`, in order.
pub open spec fn alias_candidates(c: CommandMetadata, aliases: Seq<String>, p: Seq<char>) -> Seq<Candidate>
    decreases aliases.len(),
{
    if aliases.len() == 0 {
        Seq::empty()
    } else {
        let rest = alias_candidates(c, aliases.drop_last(), p);
        let a = aliases.last();
        match match_score(a@, p) {
            Some(v) => rest.push((a@, c.description@ + " (alias for "@ + c.name@ + ")"@, c.usage@, v)),
            None => rest,
        }
    }
}

/// The names and aliases among `cs` that match `p`, command by command.
pub open spec fn candidates(cs: Seq<CommandMetadata>, p: Seq<char>) -> Seq<Candidate>
    decreases cs.len(),
{
    if cs.len() == 0 {
        Seq::empty()
    } else {
        let c = cs.last();
        let own = match match_score(c.name@, p) {
            Some(v) => seq![(c.name@, c.description@, c.usage@, v)],
            None => Seq::empty(),
        };
        candidates(cs.drop_last(), p) + own + alias_candidates(c, c.aliases@, p)
    }
}

impl AutocompleteEngine {
    pub fn new(commands: Vec<CommandMetadata>) -> (r: AutocompleteEngine)
        ensures
            r.commands == commands,
    {
        AutocompleteEngine { commands }
    }

    fn candidates_exec(&self, p: &[char]) -> (r: Vec<Suggestion>)
        ensures
            r@.map_values(|s: Suggestion| suggestion_view(s)) == candidates(self.commands@, p@),
    {
        let mut out: Vec<Suggestion> = Vec::new();
        let mut i: usize = 0;
        while i < self.commands.len()
            invariant
                i <= self.commands@.len(),
                out@.map_values(|s: Suggestion| suggestion_view(s)) == candidates(self.commands@.take(i as int), p@),
            decreases self.commands.len() - i,
        {
            let c = &self.commands[i];
            assert(self.commands@.take(i + 1).drop_last() == self.commands@.take(i as int));
            assert(self.commands@.take(i + 1).last() == *c);
            let ghost base = out@.map_values(|s: Suggestion| suggestion_view(s));
            match score_match(c.name.as_str(), p) {
                Some(v) => {
                    out.push(Suggestion::new(c.name.clone(), c.description.clone(), c.usage.clone(), v));
                    assert(out@.map_values(|s: Suggestion| suggestion_view(s)) =~= base.push(
                        (c.name@, c.description@, c.usage@, v as nat),
                    ));
                },
                None => {},
            }
            let ghost mid = out@.map_values(|s: Suggestion| suggestion_view(s));
            let mut j: usize = 0;
            while j < c.aliases.len()
                invariant
                    j <= c.aliases@.len(),
                    out@.map_values(|s: Suggestion| suggestion_view(s)) == mid + alias_candidates(*c, c.aliases@.take(j as int), p@),
                decreases c.aliases.len() - j,
            {
                let a = &c.aliases[j];
                assert(c.aliases@.take(j + 1).drop_last() == c.aliases@.take(j as int));
                assert(c.aliases@.take(j + 1).last() == *a);
                let ghost before = out@.map_values(|s: Suggestion| suggestion_view(s));
                match score_match(a.as_str(), p) {
                    Some(v) => {
                        let mut d: Vec<char> = chars_of(c.description.as_str());
                        crate::text::push_str(&mut d, " (alias for ");
                        crate::text::push_str(&mut d, c.name.as_str());
                        crate::text::push_str(&mut d, ")");
                        out.push(Suggestion::new(a.clone(), string_of(&d), c.usage.clone(), v));
                        assert(out@.map_values(|s: Suggestion| suggestion_view(s)) =~= before.push(
                            (a@, c.description@ + " (alias for "@ + c.name@ + ")"@, c.usage@, v as nat),
                        ));
                    },
                    None => {},
                }
                j += 1;
            }
            assert(c.aliases@.take(c.aliases@.len() as int) == c.aliases@);
            i += 1;
        }
        assert(self.commands@.take(self.commands@.len() as int) == self.commands@);
        out
    }

    /// Up to `max_results` suggestions for `partial`, best first. Empty input
    /// lists the first commands, each with score 0.
    pub fn get_suggestions(&self, partial: &str, max_results: usize) -> (r: Vec<Suggestion>)
        ensures
            partial@.len() == 0 ==> {
                &&& r@.len() == if max_results < self.commands@.len() { max_results as int } else { self.commands@.len() as int }
                &&& forall|k: int| 0 <= k < r@.len() ==> suggestion_view(#[trigger] r@[k]) == (
                    self.commands@[k].name@,
                    self.commands@[k].description@,
                    self.commands@[k].usage@,
                    0nat,
                )
            },
            partial@.len() > 0 ==> {
                let cs = candidates(self.commands@, lower_seq(partial@));
                &&& r@.len() == if max_results < cs.len() { max_results as int } else { cs.len() as int }
                &&& exists|perm: Seq<usize>|
                    crate::rank::is_permutation(perm, cs.len()) && (forall|k: int, l: int|
                        0 <= k < l < perm.len() ==> cs[#[trigger] perm[k] as int].3 >= cs[#[trigger] perm[l] as int].3)
                        && forall|k: int| 0 <= k < r@.len() ==> suggestion_view(#[trigger] r@[k]) == cs[perm[k] as int]
                &&& forall|k: int, l: int| 0 <= k < l < r@.len() ==> #[trigger] r@[k].score >= #[trigger] r@[l].score
            },
    {
        if partial.unicode_len() == 0 {
            let mut r: Vec<Suggestion> = Vec::new();
            let mut i: usize = 0;
            while i < self.commands.len() && i < max_results
                invariant
                    i <= self.commands@.len(),
                    i <= max_results,
                    r@.len() == i,
                    forall|k: int| 0 <= k < i ==> suggestion_view(#[trigger] r@[k]) == (
                        self.commands@[k].name@,
                        self.commands@[k].description@,
                        self.commands@[k].usage@,
                        0nat,
                    ),
                decreases self.commands.len() - i,
            {
                let c = &self.commands[i];
                r.push(Suggestion::new(c.name.clone(), c.description.clone(), c.usage.clone(), 0));
                i += 1;
            }
            return r;
        }
        let pc = chars_of(partial);
        let p = crate::text::to_lower(&pc);
        let all = self.candidates_exec(&p);
        let ghost cs = candidates(self.commands@, p@);
        let mut keys: Vec<u64> = Vec::new();
        let mut i: usize = 0;
        while i < all.len()
            invariant
                i <= all@.len(),
                keys@.len() == i,
                forall|j: int| 0 <= j < i ==> keys@[j] == (#[trigger] all@[j]).score as u64,
            decreases all.len() - i,
        {
            keys.push(all[i].score as u64);
            i += 1;
        }
        let perm = crate::rank::rank_desc(&keys);
        let mut r: Vec<Suggestion> = Vec::new();
        let mut k: usize = 0;
        while k < perm.len() && k < max_results
            invariant
                k <= perm@.len(),
                k <= max_results,
                crate::rank::is_permutation(perm@, all@.len()),
                crate::rank::ranked_by(perm@, keys@),
                keys@.len() == all@.len(),
                forall|j: int| 0 <= j < keys@.len() ==> keys@[j] == (#[trigger] all@[j]).score as u64,
                r@.len() == k,
                forall|j: int| 0 <= j < k ==> #[trigger] r@[j] == all@[perm@[j] as int],
            decreases perm.len() - k,
        {
            let s = &all[perm[k]];
            r.push(Suggestion::new(s.text.clone(), s.description.clone(), s.usage.clone(), s.score));
            k += 1;
        }
        proof {
            assert(all@.map_values(|s: Suggestion| suggestion_view(s)) == cs);
            assert(cs.len() == all@.len());
            assert forall|j: int| 0 <= j < r@.len() implies suggestion_view(#[trigger] r@[j]) == cs[perm@[j] as int] by {
                assert(cs[perm@[j] as int] == suggestion_view(all@[perm@[j] as int]));
            }
            assert forall|a: int, b: int| 0 <= a < b < r@.len() implies #[trigger] r@[a].score >= #[trigger] r@[b].score by {
                assert(keys@[perm@[a] as int] >= keys@[perm@[b] as int]);
            }
        }
        r
    }

    /// The argument hints of the command named exactly `command_name`.
    pub fn get_arg_suggestions(&self, command_name: &str) -> (r: Vec<String>)
        ensures
            match command_index(self.commands@, command_name@) {
                Some(k) => texts(r@) == texts(self.commands@[k].arg_hints@),
                None => r@.len() == 0,
            },
    {
        let name = chars_of(command_name);
        let mut i: usize = 0;
        while i < self.commands.len()
            invariant
                i <= self.commands@.len(),
                name@ == command_name@,
                command_index(self.commands@, command_name@) == command_index_from(self.commands@, command_name@, i as int),
            decreases self.commands.len() - i,
        {
            let c = chars_of(self.commands[i].name.as_str());
            if crate::text::same_chars(&c, &name) {
                assert(command_index(self.commands@, command_name@) == Some(i as int));
                let hints = &self.commands[i].arg_hints;
                let mut r: Vec<String> = Vec::new();
                let mut j: usize = 0;
                while j < hints.len()
                    invariant
                        i < self.commands@.len(),
                        command_index(self.commands@, command_name@) == Some(i as int),
                        *hints == self.commands@[i as int].arg_hints,
                        j <= hints@.len(),
                        texts(r@) == texts(hints@).take(j as int),
                    decreases hints.len() - j,
                {
                    let ghost before = texts(r@);
                    r.push(hints[j].clone());
                    assert(texts(r@) =~= before.push(hints@[j as int]@));
                    assert(texts(hints@).take(j + 1) =~= texts(hints@).take(j as int).push(hints@[j as int]@));
                    j += 1;
                }
                assert(texts(hints@).take(hints@.len() as int) == texts(hints@));
                return r;
            }
            assert(self.commands@[i as int].name@ != command_name@);
            i += 1;
        }
        Vec::new()
    }
}

/// The index of the first command named `name` at or after `i`.
pub open spec fn command_index_from(cs: Seq<CommandMetadata>, name: Seq<char>, i: int) -> Option<int>
    decreases cs.len() - i,
{
    if i < 0 || i >= cs.len() {
        None
    } else if cs[i].name@ == name {
        Some(i)
    } else {
        command_index_from(cs, name, i + 1)
    }
}

pub open spec fn command_index(cs: Seq<CommandMetadata>, name: Seq<char>) -> Option<int> {
    command_index_from(cs, name, 0)
}

} // verus!
