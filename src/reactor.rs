use vstd::prelude::*;
use crate::message::{same_text, is_ws, is_ws_char, run_end, find_run_end, lemma_run_end_bounds};
use crate::writer::{pong, pong_line};

verus! {

/// `PING`, one whitespace character, then a token of at least one character
/// that holds no newline.
pub open spec fn is_ping(s: Seq<char>) -> bool {
    &&& s.len() >= 6
    &&& s.subrange(0, 4) == seq!['P', 'I', 'N', 'G']
    &&& is_ws(s[4])
    &&& forall|k: int| 5 <= k < s.len() ==> #[trigger] s[k] != '\n'
}

/// The keepalive answer to a line, echoing its token.
pub open spec fn pong_reply(s: Seq<char>) -> Option<Seq<char>> {
    if is_ping(s) {
        Some(pong_line(s.subrange(5, s.len() as int)))
    } else {
        None
    }
}

/// The built-in raw reactor: answers `PING <token>` with `PONG <token>`.
pub fn ping(s: &str) -> (r: Option<String>)
    ensures
        match r {
            Some(x) => pong_reply(s@) == Some(x@),
            None => pong_reply(s@) is None,
        },
{
    let n = s.unicode_len();
    if n < 6 || s.get_char(0) != 'P' || s.get_char(1) != 'I' || s.get_char(2) != 'N'
        || s.get_char(3) != 'G' || !is_ws_char(s.get_char(4)) {
        proof {
            if n >= 6 && s@.subrange(0, 4) == seq!['P', 'I', 'N', 'G'] {
                assert(s@[0] == s@.subrange(0, 4)[0]);
                assert(s@[1] == s@.subrange(0, 4)[1]);
                assert(s@[2] == s@.subrange(0, 4)[2]);
                assert(s@[3] == s@.subrange(0, 4)[3]);
            }
        }
        return None;
    }
    assert(s@.subrange(0, 4) =~= seq!['P', 'I', 'N', 'G']);
    let mut k: usize = 5;
    while k < n
        invariant
            5 <= k <= n,
            n == s@.len(),
            forall|m: int| 5 <= m < k ==> #[trigger] s@[m] != '\n',
        decreases n - k,
    {
        if s.get_char(k) == '\n' {
            return None;
        }
        k = k + 1;
    }
    Some(pong(s.substring_char(5, n)))
}

/// The last index in `0..j` that is not whitespace, plus one; 0 when there is none.
pub open spec fn trim_end(s: Seq<char>, j: int) -> int
    decreases j,
{
    if 0 < j <= s.len() && is_ws(s[j - 1]) {
        trim_end(s, j - 1)
    } else {
        j
    }
}

/// The line without leading and trailing whitespace.
pub open spec fn trimmed(s: Seq<char>) -> Seq<char> {
    let start = run_end(s, 0, true);
    let end = trim_end(s, s.len() as int);
    if start < end {
        s.subrange(start, end)
    } else {
        Seq::empty()
    }
}

proof fn lemma_trim_end_bounds(s: Seq<char>, j: int)
    requires
        0 <= j <= s.len(),
    ensures
        0 <= trim_end(s, j) <= j,
    decreases j,
{
    if 0 < j && is_ws(s[j - 1]) {
        lemma_trim_end_bounds(s, j - 1);
    }
}

/// Removes surrounding whitespace, as is done to each line before it is handled.
pub fn trim_line(s: &str) -> (r: String)
    ensures
        r@ == trimmed(s@),
{
    let n = s.unicode_len();
    let start = find_run_end(s, n, 0, true);
    proof {
        lemma_run_end_bounds(s@, 0, true);
    }
    let mut end: usize = n;
    while end > 0 && is_ws_char(s.get_char(end - 1))
        invariant
            end <= n,
            n == s@.len(),
            trim_end(s@, n as int) == trim_end(s@, end as int),
        decreases end,
    {
        end = end - 1;
    }
    proof {
        lemma_trim_end_bounds(s@, n as int);
    }
    if start < end {
        String::from_str(s.substring_char(start, end))
    } else {
        String::new()
    }
}

/// A bot command in chat text: `.<name> <argument>`, split into name and argument.
pub open spec fn command_text(s: Seq<char>) -> Option<(Seq<char>, Seq<char>)> {
    let ne = run_end(s, 1, false);
    if s.len() >= 2 && s[0] == '.' && ne > 1 {
        Some((s.subrange(1, ne), s.subrange(run_end(s, ne, true), s.len() as int)))
    } else {
        None
    }
}

/// Splits `.<name> <argument>` into the command name and its argument.
pub fn command_of(text: &str) -> (r: Option<(String, String)>)
    ensures
        match r {
            Some((name, arg)) => command_text(text@) == Some((name@, arg@)),
            None => command_text(text@) is None,
        },
{
    let n = text.unicode_len();
    if n < 2 || text.get_char(0) != '.' {
        return None;
    }
    let ne = find_run_end(text, n, 1, false);
    if ne <= 1 {
        return None;
    }
    proof {
        lemma_run_end_bounds(text@, 1, false);
    }
    let as_ = find_run_end(text, n, ne, true);
    proof {
        lemma_run_end_bounds(text@, ne as int, true);
    }
    Some((String::from_str(text.substring_char(1, ne)), String::from_str(text.substring_char(as_, n))))
}

/// A reactor failed while handling a line.
pub struct ReactorError {
    pub message: String,
}

/// What the reactors answered, in order: the non-empty replies of those that
/// succeeded, skipping failures and silence.
pub open spec fn replies_of(results: Seq<Result<Option<String>, ReactorError>>) -> Seq<Seq<char>>
    decreases results.len(),
{
    if results.len() == 0 {
        Seq::empty()
    } else {
        let init = replies_of(results.drop_last());
        match results.last() {
            Ok(Some(x)) => if x@.len() > 0 {
                init.push(x@)
            } else {
                init
            },
            _ => init,
        }
    }
}

/// Gathers the replies of the raw reactors; one that failed does not hide the others.
pub fn collect_replies(results: &Vec<Result<Option<String>, ReactorError>>) -> (r: Vec<String>)
    ensures
        r@.map_values(|x: String| x@) == replies_of(results@),
{
    let mut r: Vec<String> = Vec::new();
    let mut i: usize = 0;
    while i < results.len()
        invariant
            i <= results@.len(),
            r@.map_values(|x: String| x@) == replies_of(results@.subrange(0, i as int)),
        decreases results@.len() - i,
    {
        match &results[i] {
            Ok(Some(x)) => {
                if x.unicode_len() > 0 {
                    r.push(x.clone());
                }
            },
            _ => {},
        }
        proof {
            let done = results@.subrange(0, i + 1);
            assert(done.drop_last() =~= results@.subrange(0, i as int));
            assert(done.last() == results@[i as int]);
            assert(r@.map_values(|x: String| x@) =~= replies_of(done));
        }
        i = i + 1;
    }
    assert(results@.subrange(0, i as int) =~= results@);
    r
}

/// The messages of the reactors that failed, in order.
pub open spec fn failures_of(results: Seq<Result<Option<String>, ReactorError>>) -> Seq<Seq<char>>
    decreases results.len(),
{
    if results.len() == 0 {
        Seq::empty()
    } else {
        let init = failures_of(results.drop_last());
        match results.last() {
            Err(e) => init.push(e.message@),
            _ => init,
        }
    }
}

/// Gathers the messages of the raw reactors that failed, so that each is logged.
pub fn collect_failures(results: &Vec<Result<Option<String>, ReactorError>>) -> (r: Vec<String>)
    ensures
        r@.map_values(|x: String| x@) == failures_of(results@),
{
    let mut r: Vec<String> = Vec::new();
    let mut i: usize = 0;
    while i < results.len()
        invariant
            i <= results@.len(),
            r@.map_values(|x: String| x@) == failures_of(results@.subrange(0, i as int)),
        decreases results@.len() - i,
    {
        match &results[i] {
            Err(e) => {
                r.push(e.message.clone());
            },
            _ => {},
        }
        proof {
            let done = results@.subrange(0, i + 1);
            assert(done.drop_last() =~= results@.subrange(0, i as int));
            assert(done.last() == results@[i as int]);
            assert(r@.map_values(|x: String| x@) =~= failures_of(done));
        }
        i = i + 1;
    }
    assert(results@.subrange(0, i as int) =~= results@);
    r
}

/// Every non-empty reply of a reactor that succeeded reaches the output,
/// whatever the reactors before and after it did, failures included.
pub proof fn lemma_reply_survives(
    results: Seq<Result<Option<String>, ReactorError>>,
    j: int,
    x: String,
)
    requires
        0 <= j < results.len(),
        results[j] == Ok::<Option<String>, ReactorError>(Some(x)),
        x@.len() > 0,
    ensures
        replies_of(results).contains(x@),
    decreases results.len(),
{
    let init = replies_of(results.drop_last());
    if j == results.len() - 1 {
        assert(replies_of(results) == init.push(x@));
        assert(replies_of(results)[init.len() as int] == x@);
    } else {
        lemma_reply_survives(results.drop_last(), j, x);
        let k = choose|k: int| 0 <= k < init.len() && init[k] == x@;
        assert(replies_of(results)[k] == x@);
    }
}

/// A registered reactor: one that sees every line, or one bound to a command name.
pub enum Entry<R, C> {
    Raw(R),
    Command(String, C),
}

/// The reactors in the order of registration.
pub struct Registry<R, C> {
    entries: Vec<Entry<R, C>>,
}

/// The name a reactor is bound to, or `None` for a raw reactor.
pub open spec fn entry_tag<R, C>(e: Entry<R, C>) -> Option<Seq<char>> {
    match e {
        Entry::Raw(_) => None,
        Entry::Command(name, _) => Some(name@),
    }
}

/// The latest registration of command `name` among `tags`.
pub open spec fn is_last_command(tags: Seq<Option<Seq<char>>>, name: Seq<char>, i: int) -> bool {
    &&& 0 <= i < tags.len()
    &&& tags[i] == Some(name)
    &&& forall|j: int| i < j < tags.len() ==> #[trigger] tags[j] != Some(name)
}

impl<R, C> Registry<R, C> {
    /// What each entry is, in order of registration.
    /// The reactors, in order of registration.
    pub closed spec fn entries(&self) -> Seq<Entry<R, C>> {
        self.entries@
    }

    /// What each entry is, in order of registration.
    pub open spec fn tags(&self) -> Seq<Option<Seq<char>>> {
        self.entries().map_values(|e: Entry<R, C>| entry_tag(e))
    }

    pub fn new() -> (r: Self)
        ensures
            r.entries() == Seq::<Entry<R, C>>::empty(),
    {
        let r = Registry { entries: Vec::new() };
        r
    }

    pub fn len(&self) -> (r: usize)
        ensures
            r == self.tags().len(),
    {
        self.entries.len()
    }

    /// Appends a reactor that sees every line.
    pub fn register_raw(&mut self, f: R)
        ensures
            final(self).entries() == old(self).entries().push(Entry::Raw(f)),
    {
        self.entries.push(Entry::Raw(f));
    }

    /// Appends a reactor for the command `name`; a later one for the same name wins.
    pub fn register_command(&mut self, name: String, f: C)
        ensures
            final(self).entries() == old(self).entries().push(Entry::Command(name, f)),
    {
        self.entries.push(Entry::Command(name, f));
    }

    /// The positions of the raw reactors, in order of registration.
    pub fn raw_indices(&self) -> (r: Vec<usize>)
        ensures
            forall|a: int, b: int| 0 <= a < b < r@.len() ==> r@[a] < r@[b],
            forall|k: int| 0 <= k < r@.len() ==> r@[k] < self.tags().len() && self.tags()[r@[k] as int] is None,
            forall|i: int| 0 <= i < self.tags().len() && self.tags()[i] is None ==> r@.contains(i as usize),
    {
        let mut r: Vec<usize> = Vec::new();
        let mut i: usize = 0;
        while i < self.entries.len()
            invariant
                i <= self.tags().len(),
                self.tags().len() == self.entries@.len(),
                forall|a: int, b: int| 0 <= a < b < r@.len() ==> r@[a] < r@[b],
                forall|k: int| 0 <= k < r@.len() ==> r@[k] < i && self.tags()[r@[k] as int] is None,
                forall|m: int| 0 <= m < i && self.tags()[m] is None ==> r@.contains(m as usize),
            decreases self.entries@.len() - i,
        {
            let ghost old_r = r@;
            match &self.entries[i] {
                Entry::Raw(_) => {
                    r.push(i);
                    assert(r@[old_r.len() as int] == i);
                    assert forall|m: int| 0 <= m < i + 1 && self.tags()[m] is None implies r@.contains(m as usize) by {
                        if m < i {
                            let k = choose|k: int| 0 <= k < old_r.len() && old_r[k] == m as usize;
                            assert(r@[k] == m as usize);
                        }
                    }
                },
                Entry::Command(_, _) => {
                    assert(self.tags()[i as int] is Some);
                },
            }
            i = i + 1;
        }
        r
    }

    /// The position of the reactor for command `name`: the latest one registered.
    pub fn find_command(&self, name: &str) -> (r: Option<usize>)
        ensures
            match r {
                Some(i) => is_last_command(self.tags(), name@, i as int),
                None => forall|i: int| 0 <= i < self.tags().len() ==> #[trigger] self.tags()[i] != Some(name@),
            },
    {
        let mut i: usize = self.entries.len();
        while i > 0
            invariant
                i <= self.tags().len(),
                self.tags().len() == self.entries@.len(),
                forall|j: int| i <= j < self.tags().len() ==> #[trigger] self.tags()[j] != Some(name@),
            decreases i,
        {
            i = i - 1;
            match &self.entries[i] {
                Entry::Command(n, _) => {
                    if same_text(n.as_str(), name) {
                        return Some(i);
                    }
                },
                Entry::Raw(_) => {},
            }
            assert(self.tags()[i as int] != Some(name@));
        }
        None
    }

    /// The raw reactor at position `i`.
    pub fn raw(&self, i: usize) -> (r: Option<&R>)
        requires
            i < self.tags().len(),
        ensures
            match self.entries()[i as int] {
                Entry::Raw(f) => r == Some(&f),
                Entry::Command(_, _) => r is None,
            },
    {
        match &self.entries[i] {
            Entry::Raw(f) => Some(f),
            Entry::Command(_, _) => None,
        }
    }

    /// The command reactor at position `i`.
    pub fn command(&self, i: usize) -> (r: Option<&C>)
        requires
            i < self.tags().len(),
        ensures
            match self.entries()[i as int] {
                Entry::Command(_, f) => r == Some(&f),
                Entry::Raw(_) => r is None,
            },
    {
        match &self.entries[i] {
            Entry::Command(_, f) => Some(f),
            Entry::Raw(_) => None,
        }
    }
}

} // verus!
