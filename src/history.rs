//! History of entered commands with prev/next navigation.
use vstd::prelude::*;
use crate::text::{chars_of, trim, trimmed};

verus! {

/// Stored commands, most recent last, with a navigation cursor.
pub struct CommandHistory {
    pub history: Vec<String>,
    pub max_size: usize,
    /// The entry shown while navigating; `None` when not navigating.
    pub position: Option<usize>,
    /// What was being typed when navigation began.
    pub temp_buffer: String,
}

pub open spec fn texts(v: Seq<String>) -> Seq<Seq<char>> {
    v.map_values(|s: String| s@)
}

impl CommandHistory {
    /// At most `max_size` entries are kept and the cursor names one of them.
    pub open spec fn wf(&self) -> bool {
        &&& self.history@.len() <= self.max_size
        &&& match self.position {
            Some(p) => p < self.history@.len(),
            None => true,
        }
    }

    pub fn new(max_size: usize) -> (r: CommandHistory)
        ensures
            r.wf(),
            r.history@.len() == 0,
            r.max_size == max_size,
            r.position is None,
            r.temp_buffer@.len() == 0,
    {
        CommandHistory { history: Vec::new(), max_size, position: None, temp_buffer: String::new() }
    }

    /// Records a command, unless it is blank or repeats the last one; the
    /// oldest entry leaves when the history is full. Navigation restarts.
    pub fn add(&mut self, command: String)
        requires
            old(self).wf(),
        ensures
            final(self).wf(),
            final(self).max_size == old(self).max_size,
            if trim(command@).len() == 0 || (old(self).history@.len() > 0 && old(self).history@.last()@ == command@) {
                *final(self) == *old(self)
            } else {
                &&& texts(final(self).history@) == if old(self).history@.len() < old(self).max_size {
                    texts(old(self).history@).push(command@)
                } else {
                    texts(old(self).history@).push(command@).skip(1)
                }
                &&& final(self).position is None
                &&& final(self).temp_buffer@.len() == 0
            },
    {
        let c = chars_of(command.as_str());
        let t = trimmed(&c);
        if t.len() == 0 {
            return;
        }
        let n = self.history.len();
        if n > 0 && self.history[n - 1] == command {
            return;
        }
        let ghost before = texts(self.history@);
        self.history.push(command);
        assert(texts(self.history@) == before.push(command@));
        if self.history.len() > self.max_size {
            self.history.remove(0);
            assert(texts(self.history@) =~= before.push(command@).skip(1));
        }
        self.reset_navigation();
    }

    /// Moves to the next older command and returns it; the first step saves
    /// `current_input`. At the oldest command, returns `None`.
    pub fn prev(&mut self, current_input: &str) -> (r: Option<String>)
        requires
            old(self).wf(),
        ensures
            final(self).wf(),
            final(self).history == old(self).history,
            final(self).max_size == old(self).max_size,
            old(self).history@.len() == 0 ==> r is None && *final(self) == *old(self),
            old(self).history@.len() > 0 ==> match old(self).position {
                None => {
                    &&& final(self).position == Some((old(self).history@.len() - 1) as usize)
                    &&& final(self).temp_buffer@ == current_input@
                    &&& r == Some(old(self).history@.last())
                },
                Some(p) => if p > 0 {
                    &&& final(self).position == Some((p - 1) as usize)
                    &&& final(self).temp_buffer == old(self).temp_buffer
                    &&& r == Some(old(self).history@[p - 1])
                } else {
                    r is None && *final(self) == *old(self)
                },
            },
    {
        let n = self.history.len();
        if n == 0 {
            return None;
        }
        match self.position {
            None => {
                self.temp_buffer = current_input.to_owned();
                self.position = Some(n - 1);
                Some(self.history[n - 1].clone())
            },
            Some(p) => {
                if p > 0 {
                    self.position = Some(p - 1);
                    Some(self.history[p - 1].clone())
                } else {
                    None
                }
            },
        }
    }

    /// Moves to the next newer command and returns it; past the newest,
    /// navigation ends and the saved input comes back.
    pub fn next(&mut self) -> (r: Option<String>)
        requires
            old(self).wf(),
        ensures
            final(self).wf(),
            final(self).history == old(self).history,
            final(self).temp_buffer == old(self).temp_buffer,
            final(self).max_size == old(self).max_size,
            match old(self).position {
                None => r is None && final(self).position is None,
                Some(p) => if p + 1 >= old(self).history@.len() {
                    final(self).position is None && r == Some(old(self).temp_buffer)
                } else {
                    final(self).position == Some((p + 1) as usize) && r == Some(old(self).history@[p + 1])
                },
            },
    {
        match self.position {
            None => None,
            Some(p) => {
                let new_pos = p + 1;
                if new_pos >= self.history.len() {
                    self.position = None;
                    Some(self.temp_buffer.clone())
                } else {
                    self.position = Some(new_pos);
                    Some(self.history[new_pos].clone())
                }
            },
        }
    }

    /// Ends navigation and forgets the saved input.
    pub fn reset_navigation(&mut self)
        ensures
            final(self).history == old(self).history,
            final(self).max_size == old(self).max_size,
            final(self).position is None,
            final(self).temp_buffer@.len() == 0,
    {
        self.position = None;
        self.temp_buffer = String::new();
    }

    /// All entries, most recent first.
    pub fn entries(&self) -> (r: Vec<String>)
        ensures
            r@.len() == self.history@.len(),
            forall|k: int| 0 <= k < r@.len() ==> #[trigger] r@[k] == self.history@[self.history@.len() - 1 - k],
    {
        let n = self.history.len();
        let mut r: Vec<String> = Vec::new();
        let mut k: usize = 0;
        while k < n
            invariant
                n == self.history@.len(),
                k <= n,
                r@.len() == k,
                forall|j: int| 0 <= j < k ==> #[trigger] r@[j] == self.history@[n - 1 - j],
            decreases n - k,
        {
            r.push(self.history[n - 1 - k].clone());
            k += 1;
        }
        r
    }

    pub fn is_navigating(&self) -> (r: bool)
        ensures
            r == self.position is Some,
    {
        self.position.is_some()
    }

    pub fn position(&self) -> (r: Option<usize>)
        ensures
            r == self.position,
    {
        self.position
    }

    pub fn len(&self) -> (r: usize)
        ensures
            r == self.history@.len(),
    {
        self.history.len()
    }

    pub fn is_empty(&self) -> (r: bool)
        ensures
            r == (self.history@.len() == 0),
    {
        self.history.len() == 0
    }

    /// Forgets every entry and ends navigation.
    pub fn clear(&mut self)
        ensures
            final(self).history@.len() == 0,
            final(self).max_size == old(self).max_size,
            final(self).position is None,
            final(self).temp_buffer@.len() == 0,
            final(self).wf(),
    {
        self.history.clear();
        self.reset_navigation();
    }
}

impl Default for CommandHistory {
    fn default() -> (r: CommandHistory)
        ensures
            r.wf(),
            r.history@.len() == 0,
            r.max_size == 100,
            r.position is None,
    {
        CommandHistory::new(100)
    }
}

} // verus!
