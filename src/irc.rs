use vstd::prelude::*;
use crate::message::{find_run_end, lemma_run_end_bounds, parse_line, run_end, same_text, IrcMsg};
use crate::reactor::{command_of, command_text, is_last_command, collect_failures, collect_replies, entry_tag, failures_of, Entry, ping, pong_reply, replies_of, trim_line, trimmed, ReactorError, Registry};
use crate::writer::{glue, identify, join, join_line, nick_line, user_line};

verus! {

/// What a session needs to know to start.
pub struct IrcConfig {
    pub host: String,
    pub port: u16,
    pub channels: Vec<String>,
    pub nick: String,
    pub descr: String,
    /// Command codes whose lines are not logged.
    pub blacklist: Vec<String>,
}

/// Where a session stands.
#[derive(Clone, Copy, PartialEq, Eq, Structural, Debug)]
pub enum State {
    /// The transport is up; the reader does not run yet.
    Connecting,
    /// Registration was sent; waiting for the welcome reply.
    Identifying,
    /// Normal operation.
    Active,
    /// A quit was seen: only queued output is still written.
    Draining,
    /// Over.
    Stopped,
}

/// What flows through the session's one ordered channel.
pub enum Event {
    /// A line read from the transport.
    Received(String),
    /// A line to write to the transport.
    Output(String),
    /// A request to shut down.
    Quit,
}

/// What the session asks of the loop that runs it.
pub enum Action {
    /// Show a line on the console.
    Print(String),
    /// Queue a line as an `Output` event.
    Send(String),
    /// Write a line to the transport.
    Write(String),
}

/// An action, over the characters it carries.
pub enum ActionView {
    Print(Seq<char>),
    Send(Seq<char>),
    Write(Seq<char>),
}

impl View for Action {
    type V = ActionView;

    open spec fn view(&self) -> ActionView {
        match self {
            Action::Print(s) => ActionView::Print(s@),
            Action::Send(s) => ActionView::Send(s@),
            Action::Write(s) => ActionView::Write(s@),
        }
    }
}

pub open spec fn views(a: Seq<Action>) -> Seq<ActionView> {
    a.map_values(|x: Action| x@)
}

/// Console form of a line that came in.
pub open spec fn log_in(s: Seq<char>) -> Seq<char> {
    seq!['<', ' '] + s
}

/// Console form of a line that came in and did not parse.
pub open spec fn log_bad(s: Seq<char>) -> Seq<char> {
    seq!['<', '!', ' '] + s
}

/// Console form of the message of a reactor that failed.
pub open spec fn log_fail(m: Seq<char>) -> Seq<char> {
    seq!['!', '!', ' '] + m
}

/// Console form of a line that goes out.
pub open spec fn log_out(s: Seq<char>) -> Seq<char> {
    seq!['>', ' '] + s
}

/// The reply code that says registration succeeded.
pub open spec fn welcome_code() -> Seq<char> {
    seq!['0', '0', '4']
}

/// A join request for each of the first `n` channels not yet joined, in order.
pub open spec fn join_sends(channels: Seq<Seq<char>>, joined: Seq<bool>, n: int) -> Seq<ActionView>
    decreases n,
{
    if n <= 0 {
        Seq::empty()
    } else {
        let init = join_sends(channels, joined, n - 1);
        if joined[n - 1] {
            init
        } else {
            init.push(ActionView::Send(join_line(channels[n - 1])))
        }
    }
}

/// Whether the command of a line is among `codes`.
pub open spec fn listed(codes: Seq<Seq<char>>, code: Seq<char>) -> bool {
    exists|i: int| 0 <= i < codes.len() && codes[i] == code
}

/// What is logged and sent once a trimmed line `s` went past the reactors.
pub open spec fn parsed_actions(
    s: Seq<char>,
    blacklist: Seq<Seq<char>>,
    channels: Seq<Seq<char>>,
    joined: Seq<bool>,
) -> Seq<ActionView> {
    match parse_line(s) {
        Some((_, code, _)) => {
            let log = if listed(blacklist, code) {
                Seq::<ActionView>::empty()
            } else {
                seq![ActionView::Print(log_in(s))]
            };
            let joins = if code == welcome_code() {
                join_sends(channels, joined, channels.len() as int)
            } else {
                Seq::<ActionView>::empty()
            };
            log + joins
        },
        None => seq![ActionView::Print(log_bad(s))],
    }
}

/// Everything a received line leads to: the keepalive answer, the replies of
/// the raw reactors, a log line for each reactor that failed, then the log
/// line of the message and the joins.
pub open spec fn received_actions(
    line: Seq<char>,
    results: Seq<Result<Option<String>, ReactorError>>,
    blacklist: Seq<Seq<char>>,
    channels: Seq<Seq<char>>,
    joined: Seq<bool>,
) -> Seq<ActionView> {
    let s = trimmed(line);
    let keepalive = match pong_reply(s) {
        Some(p) => seq![ActionView::Send(p)],
        None => Seq::<ActionView>::empty(),
    };
    keepalive + replies_of(results).map_values(|x: Seq<char>| ActionView::Send(x))
        + failures_of(results).map_values(|m: Seq<char>| ActionView::Print(log_fail(m)))
        + parsed_actions(s, blacklist, channels, joined)
}

/// Whether a line is the welcome reply.
pub open spec fn is_welcome(line: Seq<char>) -> bool {
    match parse_line(trimmed(line)) {
        Some((_, code, _)) => code == welcome_code(),
        None => false,
    }
}

/// The joined marks after a line: all set on the welcome reply.
pub open spec fn joined_after(joined: Seq<bool>, line: Seq<char>) -> Seq<bool> {
    if is_welcome(line) {
        Seq::new(joined.len(), |i: int| true)
    } else {
        joined
    }
}

/// The state after a line: the welcome reply ends identification.
pub open spec fn state_after(state: State, line: Seq<char>) -> State {
    if is_welcome(line) && state == State::Identifying {
        State::Active
    } else {
        state
    }
}

proof fn lemma_join_sends_are_sends(channels: Seq<Seq<char>>, joined: Seq<bool>, n: int)
    ensures
        forall|k: int|
            0 <= k < join_sends(channels, joined, n).len() ==> #[trigger] join_sends(
                channels,
                joined,
                n,
            )[k] is Send,
    decreases n,
{
    if n > 0 {
        lemma_join_sends_are_sends(channels, joined, n - 1);
    }
}

proof fn lemma_join_sends_fresh(channels: Seq<Seq<char>>, n: int)
    requires
        0 <= n <= channels.len(),
    ensures
        join_sends(channels, Seq::new(channels.len(), |i: int| false), n) == channels.subrange(
            0,
            n,
        ).map_values(|c: Seq<char>| ActionView::Send(join_line(c))),
    decreases n,
{
    let f = Seq::new(channels.len(), |i: int| false);
    if n > 0 {
        lemma_join_sends_fresh(channels, n - 1);
        assert(channels.subrange(0, n).map_values(|c: Seq<char>| ActionView::Send(join_line(c)))
            =~= channels.subrange(0, n - 1).map_values(
            |c: Seq<char>| ActionView::Send(join_line(c)),
        ).push(ActionView::Send(join_line(channels[n - 1]))));
    } else {
        assert(channels.subrange(0, n).map_values(|c: Seq<char>| ActionView::Send(join_line(c)))
            =~= Seq::<ActionView>::empty());
    }
}

proof fn lemma_join_sends_done(channels: Seq<Seq<char>>, len: nat, n: int)
    requires
        n <= len,
    ensures
        join_sends(channels, Seq::new(len, |i: int| true), n) == Seq::<ActionView>::empty(),
    decreases n,
{
    if n > 0 {
        lemma_join_sends_done(channels, len, n - 1);
    }
}

/// On the welcome reply a fresh session requests one join per configured
/// channel, in the configured order; that reply marks every channel joined,
/// whatever was marked before, so a later welcome reply requests no join at all.
pub proof fn lemma_join_once(
    channels: Seq<Seq<char>>,
    joined: Seq<bool>,
    line: Seq<char>,
    later: Seq<char>,
)
    requires
        is_welcome(line),
        joined.len() == channels.len(),
    ensures
        join_sends(channels, joined_after(joined, line), channels.len() as int)
            == Seq::<ActionView>::empty(),
        join_sends(channels, Seq::new(channels.len(), |i: int| false), channels.len() as int)
            == channels.map_values(|c: Seq<char>| ActionView::Send(join_line(c))),
        join_sends(
            channels,
            joined_after(Seq::new(channels.len(), |i: int| false), line),
            channels.len() as int,
        ) == Seq::<ActionView>::empty(),
        joined_after(joined_after(Seq::new(channels.len(), |i: int| false), line), later)
            == joined_after(Seq::new(channels.len(), |i: int| false), line),
{
    lemma_join_sends_fresh(channels, channels.len() as int);
    assert(channels.subrange(0, channels.len() as int) =~= channels);
    lemma_join_sends_done(channels, channels.len(), channels.len() as int);
    let t = Seq::new(channels.len(), |i: int| true);
    assert(Seq::new(t.len(), |i: int| true) =~= t);
}

/// Whether an action writes to the `< ` log of received lines.
pub open spec fn is_in_log(a: ActionView) -> bool {
    match a {
        ActionView::Print(t) => t.len() >= 2 && t[0] == '<' && t[1] == ' ',
        _ => false,
    }
}

/// A line whose command is on the blacklist logs nothing as received; a line
/// with any other command is logged as received exactly once.
pub proof fn lemma_blacklist(
    line: Seq<char>,
    results: Seq<Result<Option<String>, ReactorError>>,
    blacklist: Seq<Seq<char>>,
    channels: Seq<Seq<char>>,
    joined: Seq<bool>,
    code: Seq<char>,
)
    requires
        parse_line(trimmed(line)) is Some,
        code == parse_line(trimmed(line))->Some_0.1,
    ensures
        listed(blacklist, code) ==> forall|k: int|
            0 <= k < received_actions(line, results, blacklist, channels, joined).len()
                ==> !is_in_log(#[trigger] received_actions(line, results, blacklist, channels, joined)[k]),
        !listed(blacklist, code) ==> received_actions(line, results, blacklist, channels, joined).contains(
            ActionView::Print(log_in(trimmed(line))),
        ),
        !listed(blacklist, code) ==> forall|k1: int, k2: int|
            0 <= k1 < received_actions(line, results, blacklist, channels, joined).len() && 0 <= k2
                < received_actions(line, results, blacklist, channels, joined).len() && is_in_log(
                #[trigger] received_actions(line, results, blacklist, channels, joined)[k1],
            ) && is_in_log(#[trigger] received_actions(line, results, blacklist, channels, joined)[k2])
                ==> k1 == k2,
{
    let s = trimmed(line);
    let keepalive = match pong_reply(s) {
        Some(p) => seq![ActionView::Send(p)],
        None => Seq::<ActionView>::empty(),
    };
    let replies = replies_of(results).map_values(|x: Seq<char>| ActionView::Send(x));
    let fails = failures_of(results).map_values(|m: Seq<char>| ActionView::Print(log_fail(m)));
    let joins = if code == welcome_code() {
        join_sends(channels, joined, channels.len() as int)
    } else {
        Seq::<ActionView>::empty()
    };
    lemma_join_sends_are_sends(channels, joined, channels.len() as int);
    let all = received_actions(line, results, blacklist, channels, joined);
    if listed(blacklist, code) {
        assert(all =~= keepalive + replies + fails + joins);
        assert forall|k: int| 0 <= k < all.len() implies !is_in_log(#[trigger] all[k]) by {
            let a = keepalive.len() + replies.len();
            if k < keepalive.len() {
            } else if k < a {
                assert(all[k] == replies[k - keepalive.len()]);
            } else if k < a + fails.len() {
                assert(all[k] == fails[k - a]);
                assert(log_fail(failures_of(results)[k - a])[0] == '!');
            } else {
                assert(all[k] == joins[k - a - fails.len()]);
            }
        }
    } else {
        assert(all =~= keepalive + replies + fails + seq![ActionView::Print(log_in(s))] + joins);
        assert(all[keepalive.len() + replies.len() + fails.len() as int] == ActionView::Print(log_in(s)));
        let p = keepalive.len() + replies.len() + fails.len();
        assert forall|k: int| 0 <= k < all.len() && is_in_log(#[trigger] all[k]) implies k == p by {
            let a = keepalive.len() + replies.len();
            if k < keepalive.len() {
            } else if k < a {
                assert(all[k] == replies[k - keepalive.len()]);
            } else if k < p {
                assert(all[k] == fails[k - a]);
                assert(log_fail(failures_of(results)[k - a])[0] == '!');
            } else if k > p {
                assert(all[k] == joins[k - p - 1]);
            }
        }
    }
}

pub open spec fn privmsg_code() -> Seq<char> {
    seq!['P', 'R', 'I', 'V', 'M', 'S', 'G']
}

/// The params of a chat message, `<target> :<text>` or `<target> <text>`,
/// split into target and text.
pub open spec fn privmsg_parts(p: Seq<char>) -> (Seq<char>, Seq<char>) {
    let te = run_end(p, 0, false);
    let ts = run_end(p, te, true);
    let text = if ts < p.len() && p[ts] == ':' {
        p.subrange(ts + 1, p.len() as int)
    } else {
        p.subrange(ts, p.len() as int)
    };
    (p.subrange(0, te), text)
}

/// The bot command that a received line carries: sender, target, command
/// name and argument.
pub open spec fn command_call(line: Seq<char>) -> Option<(Seq<char>, Seq<char>, Seq<char>, Seq<char>)> {
    match parse_line(trimmed(line)) {
        Some((prefix, code, params)) => if code == privmsg_code() {
            match command_text(privmsg_parts(params).1) {
                Some((name, arg)) => Some((prefix, privmsg_parts(params).0, name, arg)),
                None => None,
            }
        } else {
            None
        },
        None => None,
    }
}

/// A call of the command reactor at `index`, asked for by `sender` in `target`.
pub struct Invocation {
    pub index: usize,
    pub sender: String,
    pub target: String,
    pub arg: String,
}

/// Splits the params of a chat message into target and text.
fn split_privmsg(p: &str) -> (r: (String, String))
    ensures
        privmsg_parts(p@) == (r.0@, r.1@),
{
    let n = p.unicode_len();
    let te = find_run_end(p, n, 0, false);
    proof {
        lemma_run_end_bounds(p@, 0, false);
    }
    let ts = find_run_end(p, n, te, true);
    proof {
        lemma_run_end_bounds(p@, te as int, true);
    }
    let text = if ts < n && p.get_char(ts) == ':' {
        p.substring_char(ts + 1, n)
    } else {
        p.substring_char(ts, n)
    };
    (String::from_str(p.substring_char(0, te)), String::from_str(text))
}

/// One session with one server, and the reactors registered on it.
pub struct Irc<R, C> {
    host: String,
    port: u16,
    nick: String,
    descr: String,
    channels: Vec<String>,
    joined: Vec<bool>,
    blacklist: Vec<String>,
    state: State,
    registry: Registry<R, C>,
}

impl<R, C> Irc<R, C> {
    pub closed spec fn channels(&self) -> Seq<Seq<char>> {
        self.channels@.map_values(|c: String| c@)
    }

    pub closed spec fn blacklist(&self) -> Seq<Seq<char>> {
        self.blacklist@.map_values(|c: String| c@)
    }

    /// For each channel, whether its join was already requested.
    pub closed spec fn joined(&self) -> Seq<bool> {
        self.joined@
    }

    pub closed spec fn state(&self) -> State {
        self.state
    }

    pub closed spec fn nick(&self) -> Seq<char> {
        self.nick@
    }

    pub closed spec fn descr(&self) -> Seq<char> {
        self.descr@
    }

    pub closed spec fn host(&self) -> Seq<char> {
        self.host@
    }

    pub closed spec fn port(&self) -> u16 {
        self.port
    }

    /// The registered reactors, in order of registration.
    pub closed spec fn reactor_entries(&self) -> Seq<Entry<R, C>> {
        self.registry.entries()
    }

    /// What each registered reactor is, as `Registry::tags` gives it.
    pub open spec fn reactors(&self) -> Seq<Option<Seq<char>>> {
        self.reactor_entries().map_values(|e: Entry<R, C>| entry_tag(e))
    }

    /// One joined mark per configured channel.
    pub open spec fn wf(&self) -> bool {
        self.joined().len() == self.channels().len()
    }

    /// Everything about the session but its reactors, state and joins.
    pub open spec fn same_setup(&self, other: &Self) -> bool {
        &&& self.channels() == other.channels()
        &&& self.blacklist() == other.blacklist()
        &&& self.nick() == other.nick()
        &&& self.descr() == other.descr()
        &&& self.host() == other.host()
        &&& self.port() == other.port()
    }

    /// Starts a session for a transport that the caller connects to
    /// `conf.host` and `conf.port`. The keepalive answer is built in; no other
    /// reactor is registered yet.
    pub fn connect(conf: IrcConfig) -> (r: Self)
        ensures
            r.wf(),
            r.state() == State::Connecting,
            r.channels() == conf.channels@.map_values(|c: String| c@),
            r.blacklist() == conf.blacklist@.map_values(|c: String| c@),
            r.joined() == Seq::new(conf.channels@.len(), |i: int| false),
            r.nick() == conf.nick@,
            r.descr() == conf.descr@,
            r.host() == conf.host@,
            r.port() == conf.port,
            r.reactor_entries() == Seq::<Entry<R, C>>::empty(),
    {
        let mut joined: Vec<bool> = Vec::new();
        let mut i: usize = 0;
        while i < conf.channels.len()
            invariant
                i <= conf.channels@.len(),
                joined@ == Seq::new(i as nat, |k: int| false),
            decreases conf.channels@.len() - i,
        {
            joined.push(false);
            i = i + 1;
            assert(joined@ =~= Seq::new(i as nat, |k: int| false));
        }
        Irc {
            host: conf.host,
            port: conf.port,
            nick: conf.nick,
            descr: conf.descr,
            channels: conf.channels,
            joined,
            blacklist: conf.blacklist,
            state: State::Connecting,
            registry: Registry::new(),
        }
    }

    pub fn host_name(&self) -> (r: &str)
        ensures
            r@ == self.host(),
    {
        self.host.as_str()
    }

    pub fn port_number(&self) -> (r: u16)
        ensures
            r == self.port(),
    {
        self.port
    }

    pub fn current_state(&self) -> (r: State)
        ensures
            r == self.state(),
    {
        self.state
    }

    /// Adds a reactor that sees every received line.
    pub fn register_raw(&mut self, f: R)
        ensures
            final(self).reactor_entries() == old(self).reactor_entries().push(Entry::Raw(f)),
            final(self).same_setup(old(self)),
            final(self).state() == old(self).state(),
            final(self).joined() == old(self).joined(),
            final(self).wf() == old(self).wf(),
    {
        self.registry.register_raw(f);
    }

    /// Adds a reactor for the command `name`.
    pub fn register_command(&mut self, name: String, f: C)
        ensures
            final(self).reactor_entries() == old(self).reactor_entries().push(Entry::Command(name, f)),
            final(self).same_setup(old(self)),
            final(self).state() == old(self).state(),
            final(self).joined() == old(self).joined(),
            final(self).wf() == old(self).wf(),
    {
        self.registry.register_command(name, f);
    }

    pub fn registry(&self) -> (r: &Registry<R, C>)
        ensures
            r.entries() == self.reactor_entries(),
    {
        &self.registry
    }

    /// Whether `code` is on the blacklist.
    fn is_listed(&self, code: &str) -> (r: bool)
        ensures
            r == listed(self.blacklist(), code@),
    {
        let mut i: usize = 0;
        while i < self.blacklist.len()
            invariant
                i <= self.blacklist@.len(),
                forall|k: int| 0 <= k < i ==> self.blacklist()[k] != code@,
            decreases self.blacklist@.len() - i,
        {
            if same_text(self.blacklist[i].as_str(), code) {
                assert(self.blacklist()[i as int] == code@);
                return true;
            }
            i = i + 1;
        }
        false
    }

    /// Sends a join for every channel not joined yet and marks them all joined.
    fn join_channels(&mut self, r: &mut Vec<Action>)
        requires
            old(self).wf(),
        ensures
            final(self).wf(),
            final(self).same_setup(old(self)),
            final(self).reactor_entries() == old(self).reactor_entries(),
            final(self).state() == old(self).state(),
            final(self).joined() == Seq::new(old(self).joined().len(), |i: int| true),
            views(final(r)@) == views(old(r)@) + join_sends(
                old(self).channels(),
                old(self).joined(),
                old(self).channels().len() as int,
            ),
    {
        let ghost j0 = self.joined@;
        let ghost r0 = views(r@);
        let mut i: usize = 0;
        while i < self.channels.len()
            invariant
                i <= self.channels@.len(),
                self.joined@.len() == self.channels@.len(),
                self.channels() == old(self).channels(),
                self.same_setup(old(self)),
                self.reactor_entries() == old(self).reactor_entries(),
                self.state() == old(self).state(),
                j0 == old(self).joined(),
                forall|k: int| 0 <= k < i ==> self.joined@[k],
                forall|k: int| i <= k < self.joined@.len() ==> self.joined@[k] == j0[k],
                views(r@) == r0 + join_sends(self.channels(), j0, i as int),
            decreases self.channels@.len() - i,
        {
            let ghost before = views(r@);
            if !self.joined[i] {
                let line = join(self.channels[i].as_str());
                r.push(Action::Send(line));
                self.joined.set(i, true);
                assert(views(r@) =~= before.push(ActionView::Send(join_line(self.channels()[i as int]))));
            }
            i = i + 1;
        }
        assert(self.joined@ =~= Seq::new(old(self).joined().len(), |i: int| true));
    }

    /// Handles one line read from the transport, given what the raw reactors
    /// answered to its trimmed form, in order of registration.
    pub fn handle_received(
        &mut self,
        line: &str,
        results: &Vec<Result<Option<String>, ReactorError>>,
    ) -> (r: Vec<Action>)
        requires
            old(self).wf(),
        ensures
            final(self).wf(),
            final(self).same_setup(old(self)),
            final(self).reactor_entries() == old(self).reactor_entries(),
            old(self).state() == State::Draining || old(self).state() == State::Stopped ==> {
                &&& r@.len() == 0
                &&& final(self).state() == old(self).state()
                &&& final(self).joined() == old(self).joined()
            },
            !(old(self).state() == State::Draining || old(self).state() == State::Stopped) ==> {
                &&& views(r@) == received_actions(
                    line@,
                    results@,
                    old(self).blacklist(),
                    old(self).channels(),
                    old(self).joined(),
                )
                &&& final(self).joined() == joined_after(old(self).joined(), line@)
                &&& final(self).state() == state_after(old(self).state(), line@)
            },
    {
        let mut r: Vec<Action> = Vec::new();
        if self.state == State::Draining || self.state == State::Stopped {
            return r;
        }
        let s = trim_line(line);
        match ping(s.as_str()) {
            Some(p) => r.push(Action::Send(p)),
            None => {},
        }
        let ghost keepalive = views(r@);
        assert(keepalive =~= match pong_reply(s@) {
            Some(p) => seq![ActionView::Send(p)],
            None => Seq::<ActionView>::empty(),
        });
        let replies = collect_replies(results);
        let mut i: usize = 0;
        while i < replies.len()
            invariant
                i <= replies@.len(),
                views(r@) == keepalive + replies@.subrange(0, i as int).map_values(
                    |x: String| ActionView::Send(x@),
                ),
            decreases replies@.len() - i,
        {
            let ghost before = views(r@);
            r.push(Action::Send(replies[i].clone()));
            assert(views(r@) =~= before.push(ActionView::Send(replies@[i as int]@)));
            assert(replies@.subrange(0, i + 1).map_values(|x: String| ActionView::Send(x@))
                =~= replies@.subrange(0, i as int).map_values(|x: String| ActionView::Send(x@)).push(
                ActionView::Send(replies@[i as int]@),
            ));
            assert(views(r@) =~= keepalive + replies@.subrange(0, i + 1).map_values(
                |x: String| ActionView::Send(x@),
            ));
            i = i + 1;
        }
        assert(replies@.subrange(0, i as int) =~= replies@);
        assert(replies@.map_values(|x: String| ActionView::Send(x@)) =~= replies_of(
            results@,
        ).map_values(|x: Seq<char>| ActionView::Send(x)));
        let ghost sent = views(r@);
        let fails = collect_failures(results);
        let mut j: usize = 0;
        while j < fails.len()
            invariant
                j <= fails@.len(),
                views(r@) == sent + fails@.subrange(0, j as int).map_values(
                    |x: String| ActionView::Print(log_fail(x@)),
                ),
            decreases fails@.len() - j,
        {
            let ghost before = views(r@);
            proof {
                reveal_strlit("!! ");
            }
            let l = glue("!! ", fails[j].as_str());
            assert(l@ =~= log_fail(fails@[j as int]@));
            r.push(Action::Print(l));
            assert(views(r@) =~= before.push(ActionView::Print(log_fail(fails@[j as int]@))));
            assert(fails@.subrange(0, j + 1).map_values(|x: String| ActionView::Print(log_fail(x@)))
                =~= fails@.subrange(0, j as int).map_values(
                |x: String| ActionView::Print(log_fail(x@)),
            ).push(ActionView::Print(log_fail(fails@[j as int]@))));
            j = j + 1;
        }
        assert(fails@.subrange(0, j as int) =~= fails@);
        assert(fails@.map_values(|x: String| ActionView::Print(log_fail(x@))) =~= failures_of(
            results@,
        ).map_values(|m: Seq<char>| ActionView::Print(log_fail(m))));
        let ghost base = views(r@);
        proof {
            reveal_strlit("< ");
            reveal_strlit("<! ");
            reveal_strlit("004");
        }
        match IrcMsg::new(s.as_str()) {
            Some(msg) => {
                if !self.is_listed(msg.code.as_str()) {
                    let l = glue("< ", s.as_str());
                    assert(l@ =~= log_in(s@));
                    r.push(Action::Print(l));
                    assert(views(r@) =~= base.push(ActionView::Print(log_in(s@))));
                }
                let ghost logged = views(r@);
                assert(logged =~= base + (if listed(self.blacklist(), msg.code@) {
                    Seq::<ActionView>::empty()
                } else {
                    seq![ActionView::Print(log_in(s@))]
                }));
                assert("004"@ =~= welcome_code());
                if same_text(msg.code.as_str(), "004") {
                    assert(msg.code@ =~= welcome_code());
                    self.join_channels(&mut r);
                    if self.state == State::Identifying {
                        self.state = State::Active;
                    }
                    assert(views(r@) =~= logged + join_sends(
                        old(self).channels(),
                        old(self).joined(),
                        old(self).channels().len() as int,
                    ));
                } else {
                    assert(msg.code@ != welcome_code());
                    assert(views(r@) =~= logged + Seq::<ActionView>::empty());
                }
            },
            None => {
                let l = glue("<! ", s.as_str());
                assert(l@ =~= log_bad(s@));
                r.push(Action::Print(l));
                assert(views(r@) =~= base + seq![ActionView::Print(log_bad(s@))]);
            },
        }
        r
    }

    /// Sends the registration lines once: `Connecting` becomes `Identifying`.
    /// In any other state nothing happens.
    pub fn start(&mut self) -> (r: Vec<Action>)
        requires
            old(self).wf(),
        ensures
            final(self).wf(),
            final(self).same_setup(old(self)),
            final(self).reactor_entries() == old(self).reactor_entries(),
            final(self).joined() == old(self).joined(),
            old(self).state() == State::Connecting ==> {
                &&& final(self).state() == State::Identifying
                &&& views(r@) == seq![
                    ActionView::Send(nick_line(old(self).nick())),
                    ActionView::Send(user_line(old(self).nick(), old(self).descr())),
                ]
            },
            old(self).state() != State::Connecting ==> {
                &&& final(self).state() == old(self).state()
                &&& r@.len() == 0
            },
    {
        let mut r: Vec<Action> = Vec::new();
        if self.state != State::Connecting {
            return r;
        }
        let mut lines = identify(self.nick.as_str(), self.descr.as_str());
        let ghost l = lines@;
        let second = lines.pop().unwrap();
        let first = lines.pop().unwrap();
        r.push(Action::Send(first));
        r.push(Action::Send(second));
        assert(views(r@) =~= seq![ActionView::Send(l[0]@), ActionView::Send(l[1]@)]);
        self.state = State::Identifying;
        r
    }

    /// Handles a line to be sent: it is shown, then written. Once stopped,
    /// nothing is written.
    pub fn handle_output(&self, line: &str) -> (r: Vec<Action>)
        ensures
            self.state() == State::Stopped ==> r@.len() == 0,
            self.state() != State::Stopped ==> views(r@) == seq![
                ActionView::Print(log_out(line@)),
                ActionView::Write(line@),
            ],
    {
        let mut r: Vec<Action> = Vec::new();
        if self.state == State::Stopped {
            return r;
        }
        proof {
            reveal_strlit("> ");
        }
        let l = glue("> ", line);
        assert(l@ =~= log_out(line@));
        r.push(Action::Print(l));
        r.push(Action::Write(String::from_str(line)));
        assert(views(r@) =~= seq![ActionView::Print(log_out(line@)), ActionView::Write(line@)]);
        r
    }

    /// A quit was seen: received lines are ignored from now on, queued output
    /// is still written.
    pub fn quit(&mut self)
        ensures
            final(self).state() == (if old(self).state() == State::Stopped {
                State::Stopped
            } else {
                State::Draining
            }),
            final(self).same_setup(old(self)),
            final(self).reactor_entries() == old(self).reactor_entries(),
            final(self).joined() == old(self).joined(),
            final(self).wf() == old(self).wf(),
    {
        if self.state != State::Stopped {
            self.state = State::Draining;
        }
    }

    /// Ends the session: the queue is drained, or the transport failed.
    pub fn stop(&mut self)
        ensures
            final(self).state() == State::Stopped,
            final(self).same_setup(old(self)),
            final(self).reactor_entries() == old(self).reactor_entries(),
            final(self).joined() == old(self).joined(),
            final(self).wf() == old(self).wf(),
    {
        self.state = State::Stopped;
    }

    /// The command reactor that a received line calls for, if it is a chat
    /// message `.<name> <argument>` and a reactor is registered for `<name>`;
    /// the latest one registered answers.
    pub fn command_request(&self, line: &str) -> (r: Option<Invocation>)
        ensures
            match r {
                Some(v) => {
                    &&& command_call(line@) is Some
                    &&& command_call(line@)->Some_0.0 == v.sender@
                    &&& command_call(line@)->Some_0.1 == v.target@
                    &&& command_call(line@)->Some_0.3 == v.arg@
                    &&& is_last_command(self.reactors(), command_call(line@)->Some_0.2, v.index as int)
                },
                None => command_call(line@) is None || forall|i: int|
                    0 <= i < self.reactors().len() ==> #[trigger] self.reactors()[i] != Some(
                        command_call(line@)->Some_0.2,
                    ),
            },
    {
        let s = trim_line(line);
        let msg = match IrcMsg::new(s.as_str()) {
            Some(m) => m,
            None => {
                return None;
            },
        };
        proof {
            reveal_strlit("PRIVMSG");
        }
        assert("PRIVMSG"@ =~= privmsg_code());
        if !same_text(msg.code.as_str(), "PRIVMSG") {
            return None;
        }
        let (target, text) = split_privmsg(msg.param.as_str());
        let (name, arg) = match command_of(text.as_str()) {
            Some(c) => c,
            None => {
                return None;
            },
        };
        match self.registry.find_command(name.as_str()) {
            Some(index) => Some(Invocation { index, sender: msg.prefix, target, arg }),
            None => None,
        }
    }
}

} // verus!
