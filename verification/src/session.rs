use vstd::prelude::*;
use vstd::assert_seqs_equal;
use crate::bytes::{find_byte, push_all};
use crate::classify::{
    classify_join, classify_ping, is_join_line, is_ping_line, make_ping_reply, offer_of,
    parse_dcc_send, ping_reply, DccOffer, DccScan, OfferView,
};

verus! {

/// The carriage-return line-feed terminator of a control line.
pub open spec fn crlf() -> Seq<u8> {
    seq![13u8, 10u8]
}

/// `NICK <nick>` as sent at login.
pub open spec fn nick_line(nick: Seq<u8>) -> Seq<u8> {
    seq![78u8, 73u8, 67u8, 75u8, 32u8] + nick + crlf()
}

/// `USER <nick> 0 * <nick>` as sent at login.
pub open spec fn user_line(nick: Seq<u8>) -> Seq<u8> {
    seq![85u8, 83u8, 69u8, 82u8, 32u8] + nick + seq![32u8, 48u8, 32u8, 42u8, 32u8] + nick + crlf()
}

/// `JOIN #<channel>`, the join request.
pub open spec fn join_line(channel: Seq<u8>) -> Seq<u8> {
    seq![74u8, 79u8, 73u8, 78u8, 32u8, 35u8] + channel + crlf()
}

/// `PRIVMSG <bot> :xdcc send #<package>`, the offer request.
pub open spec fn xdcc_line(bot: Seq<u8>, package: Seq<u8>) -> Seq<u8> {
    seq![80u8, 82u8, 73u8, 86u8, 77u8, 83u8, 71u8, 32u8] + bot + seq![
        32u8,
        58u8,
        120u8,
        100u8,
        99u8,
        99u8,
        32u8,
        115u8,
        101u8,
        110u8,
        100u8,
        32u8,
        35u8,
    ] + package + crlf()
}

/// `QUIT :my job is done here!`, the farewell.
pub open spec fn quit_line() -> Seq<u8> {
    seq![81u8, 85u8, 73u8, 84u8, 32u8, 58u8] + seq![
        109u8,
        121u8,
        32u8,
        106u8,
        111u8,
        98u8,
        32u8,
        105u8,
        115u8,
        32u8,
        100u8,
        111u8,
        110u8,
        101u8,
        32u8,
        104u8,
        101u8,
        114u8,
        101u8,
        33u8,
    ] + crlf()
}

/// Build the `NICK` login line.
pub fn build_nick_line(nick: &[u8]) -> (r: Vec<u8>)
    ensures
        r@ == nick_line(nick@),
{
    let mut r: Vec<u8> = vec![78u8, 73u8, 67u8, 75u8, 32u8];
    push_all(&mut r, nick);
    r.push(13);
    r.push(10);
    proof {
        assert_seqs_equal!(r@ == nick_line(nick@));
    }
    r
}

/// Build the `USER` login line.
pub fn build_user_line(nick: &[u8]) -> (r: Vec<u8>)
    ensures
        r@ == user_line(nick@),
{
    let mut r: Vec<u8> = vec![85u8, 83u8, 69u8, 82u8, 32u8];
    push_all(&mut r, nick);
    let mid: [u8; 5] = [32u8, 48u8, 32u8, 42u8, 32u8];
    push_all(&mut r, &mid);
    push_all(&mut r, nick);
    r.push(13);
    r.push(10);
    proof {
        assert_seqs_equal!(r@ == user_line(nick@));
    }
    r
}

/// Build the join request for a channel.
pub fn build_join_line(channel: &[u8]) -> (r: Vec<u8>)
    ensures
        r@ == join_line(channel@),
{
    let mut r: Vec<u8> = vec![74u8, 79u8, 73u8, 78u8, 32u8, 35u8];
    push_all(&mut r, channel);
    r.push(13);
    r.push(10);
    proof {
        assert_seqs_equal!(r@ == join_line(channel@));
    }
    r
}

/// Build the offer request naming one package, addressed to the bot.
pub fn build_xdcc_line(bot: &[u8], package: &[u8]) -> (r: Vec<u8>)
    ensures
        r@ == xdcc_line(bot@, package@),
{
    let mut r: Vec<u8> = vec![80u8, 82u8, 73u8, 86u8, 77u8, 83u8, 71u8, 32u8];
    push_all(&mut r, bot);
    let mid: [u8; 13] = [32u8, 58u8, 120u8, 100u8, 99u8, 99u8, 32u8, 115u8, 101u8, 110u8, 100u8, 32u8, 35u8];
    push_all(&mut r, &mid);
    push_all(&mut r, package);
    r.push(13);
    r.push(10);
    proof {
        assert_seqs_equal!(r@ == xdcc_line(bot@, package@));
    }
    r
}

/// Build the farewell line.
pub fn build_quit_line() -> (r: Vec<u8>)
    ensures
        r@ == quit_line(),
{
    let r: Vec<u8> = vec![
        81u8, 85u8, 73u8, 84u8, 32u8, 58u8, 109u8, 121u8, 32u8, 106u8, 111u8, 98u8, 32u8, 105u8,
        115u8, 32u8, 100u8, 111u8, 110u8, 101u8, 32u8, 104u8, 101u8, 114u8, 101u8, 33u8, 13u8,
        10u8,
    ];
    proof {
        assert_seqs_equal!(r@ == quit_line());
    }
    r
}

/// The comma-separated fields of `s`, split on every comma.
pub open spec fn comma_fields(s: Seq<u8>) -> Seq<Seq<u8>>
    decreases s.len(),
{
    let k = find_byte(s, 44, 0);
    if 0 <= k < s.len() {
        seq![s.take(k)] + comma_fields(s.skip(k + 1))
    } else {
        seq![s]
    }
}

/// Split a package list on commas. The result is never empty.
pub fn split_packages(s: &[u8]) -> (r: Vec<Vec<u8>>)
    ensures
        r@.map_values(|v: Vec<u8>| v@) == comma_fields(s@),
        r@.len() >= 1,
{
    let n = s.len();
    let mut r: Vec<Vec<u8>> = Vec::new();
    let mut start: usize = 0;
    let mut i: usize = 0;
    proof {
        assert_seqs_equal!(s@.skip(0) == s@);
        assert_seqs_equal!(r@.map_values(|v: Vec<u8>| v@) == Seq::<Seq<u8>>::empty());
    }
    while i < n
        invariant
            n == s@.len() <= usize::MAX,
            0 <= start <= i <= s@.len(),
            forall|j: int| start <= j < i ==> s@[j] != 44,
            comma_fields(s@) == r@.map_values(|v: Vec<u8>| v@) + comma_fields(
                s@.skip(start as int),
            ),
        decreases s@.len() - i,
    {
        if s[i] == 44 {
            let ghost prior = r@.map_values(|v: Vec<u8>| v@);
            let field = crate::bytes::copy_range(s, start, i);
            proof {
                let rest = s@.skip(start as int);
                crate::framer::lemma_find_byte_bounds(rest, 44, 0);
                assert(rest[i - start] == 44);
                assert(find_byte(rest, 44, 0) == i - start) by {
                    let f = find_byte(rest, 44, 0);
                    assert(f != -1);
                    if f < i - start {
                        assert(s@[start + f] != 44);
                        assert(rest[f] == s@[start + f]);
                    }
                    if f > i - start {
                        assert(rest[i - start] != 44);
                    }
                }
                assert_seqs_equal!(rest.take(i - start) == field@);
                assert_seqs_equal!(rest.skip(i - start + 1) == s@.skip(i + 1));
                assert(comma_fields(rest) == seq![field@] + comma_fields(s@.skip(i + 1)));
            }
            r.push(field);
            proof {
                assert_seqs_equal!(r@.map_values(|v: Vec<u8>| v@) == prior + seq![field@]);
                assert_seqs_equal!(comma_fields(s@) ==
                    r@.map_values(|v: Vec<u8>| v@) + comma_fields(s@.skip(i + 1)));
            }
            start = i + 1;
        }
        i = i + 1;
    }
    let ghost prior = r@.map_values(|v: Vec<u8>| v@);
    let field = crate::bytes::copy_range(s, start, n);
    proof {
        let rest = s@.skip(start as int);
        crate::framer::lemma_find_byte_bounds(rest, 44, 0);
        assert(find_byte(rest, 44, 0) == -1) by {
            let f = find_byte(rest, 44, 0);
            if f != -1 {
                assert(rest[f] == s@[start + f]);
                assert(s@[start + f] != 44);
            }
        }
        assert(comma_fields(rest) == seq![rest]);
        assert_seqs_equal!(field@ == rest);
    }
    r.push(field);
    proof {
        assert_seqs_equal!(r@.map_values(|v: Vec<u8>| v@) == prior + seq![field@]);
        assert_seqs_equal!(r@.map_values(|v: Vec<u8>| v@) == comma_fields(s@));
    }
    r
}

/// One run's request: where to connect, what to join, whom to ask, and
/// which packages to ask for.
pub struct Request {
    pub server: Vec<u8>,
    pub channel: Vec<u8>,
    pub nickname: Vec<u8>,
    pub bot: Vec<u8>,
    pub packages: Vec<Vec<u8>>,
}

impl Request {
    /// A request asks for at least one package.
    pub open spec fn wf(&self) -> bool {
        self.packages@.len() >= 1
    }

    /// The package identifiers as byte sequences.
    pub open spec fn packages_view(&self) -> Seq<Seq<u8>> {
        self.packages@.map_values(|v: Vec<u8>| v@)
    }
}

/// The mathematical content of the session's reaction state.
pub struct SessionView {
    pub join_sent: bool,
    pub requests_sent: bool,
    pub dispatched: nat,
}

/// A reaction the session owes after reading one line.
pub enum Action {
    SendLine(Vec<u8>),
    Spawn(DccOffer),
}

/// The mathematical content of one reaction.
pub enum SpecAction {
    Send(Seq<u8>),
    Spawn(OfferView),
}

impl View for Action {
    type V = SpecAction;

    open spec fn view(&self) -> SpecAction {
        match self {
            Action::SendLine(v) => SpecAction::Send(v@),
            Action::Spawn(o) => SpecAction::Spawn(o@),
        }
    }
}

/// The mathematical content of a sequence of reactions.
pub open spec fn actions_view(v: Seq<Action>) -> Seq<SpecAction> {
    v.map_values(|a: Action| a@)
}

/// Appending a reaction appends its content.
pub proof fn lemma_actions_view_push(v: Seq<Action>, a: Action)
    ensures
        actions_view(v.push(a)) == actions_view(v).push(a@),
{
    assert_seqs_equal!(actions_view(v.push(a)) == actions_view(v).push(a@));
}

/// One more package in the batch means one more offer request.
proof fn lemma_batch_take_step(bot: Seq<u8>, pv: Seq<Seq<u8>>, k: int)
    requires
        0 <= k < pv.len(),
    ensures
        request_batch(bot, pv.take(k + 1)) == request_batch(bot, pv.take(k)).push(
            SpecAction::Send(xdcc_line(bot, pv[k])),
        ),
{
    assert_seqs_equal!(request_batch(bot, pv.take(k + 1))
        == request_batch(bot, pv.take(k)).push(SpecAction::Send(xdcc_line(bot, pv[k]))));
}

/// The reactions the keepalive rule owes: the reply, and, the first time,
/// the join request after it.
pub open spec fn keepalive_actions(s: SessionView, channel: Seq<u8>, line: Seq<u8>) -> Seq<
    SpecAction,
> {
    if is_ping_line(line) {
        if !s.join_sent {
            seq![SpecAction::Send(ping_reply(line)), SpecAction::Send(join_line(channel))]
        } else {
            seq![SpecAction::Send(ping_reply(line))]
        }
    } else {
        Seq::empty()
    }
}

/// One offer request per package, in order, addressed to the bot.
pub open spec fn request_batch(bot: Seq<u8>, packages: Seq<Seq<u8>>) -> Seq<SpecAction> {
    packages.map_values(|p: Seq<u8>| SpecAction::Send(xdcc_line(bot, p)))
}

/// Whether reading `line` in state `s` makes the join-request reaction fire.
pub open spec fn batch_fires(s: SessionView, line: Seq<u8>) -> bool {
    is_join_line(line) && !s.requests_sent
}

/// The session state after reading one line.
pub open spec fn step_state(s: SessionView, line: Seq<u8>) -> SessionView {
    SessionView {
        join_sent: s.join_sent || is_ping_line(line),
        requests_sent: s.requests_sent || is_join_line(line),
        dispatched: s.dispatched + (if offer_of(line) is Some {
            1nat
        } else {
            0nat
        }),
    }
}

/// Every reaction owed after reading one line, in the order owed: the
/// keepalive reply first, then the offer requests, then the dispatch.
pub open spec fn step_actions(
    s: SessionView,
    channel: Seq<u8>,
    bot: Seq<u8>,
    packages: Seq<Seq<u8>>,
    line: Seq<u8>,
) -> Seq<SpecAction> {
    keepalive_actions(s, channel, line) + (if batch_fires(s, line) {
        request_batch(bot, packages)
    } else {
        Seq::empty()
    }) + (match offer_of(line) {
        Some(o) => seq![SpecAction::Spawn(o)],
        None => Seq::empty(),
    })
}

/// The reaction state of one control session: which one-time reactions
/// have fired and how many transfers were dispatched.
pub struct Session {
    pub join_sent: bool,
    pub requests_sent: bool,
    pub dispatched: usize,
}

impl View for Session {
    type V = SessionView;

    open spec fn view(&self) -> SessionView {
        SessionView {
            join_sent: self.join_sent,
            requests_sent: self.requests_sent,
            dispatched: self.dispatched as nat,
        }
    }
}

impl Session {
    /// A fresh session: nothing sent, nothing dispatched.
    pub fn new() -> (r: Session)
        ensures
            !r@.join_sent,
            !r@.requests_sent,
            r@.dispatched == 0,
    {
        Session { join_sent: false, requests_sent: false, dispatched: 0 }
    }

    /// Whether a transfer has been dispatched for every requested package,
    /// after which the control loop stops reading lines.
    pub fn all_dispatched(&self, req: &Request) -> (r: bool)
        ensures
            r == (self@.dispatched == req.packages@.len()),
    {
        self.dispatched == req.packages.len()
    }

    /// React to one control line: evaluate all three classification rules
    /// and return the owed reactions, in order.
    pub fn handle_line(&mut self, req: &Request, line: &[u8]) -> (acts: Vec<Action>)
        requires
            old(self)@.dispatched < req.packages@.len(),
        ensures
            final(self)@ == step_state(old(self)@, line@),
            actions_view(acts@) == step_actions(
                old(self)@,
                req.channel@,
                req.bot@,
                req.packages_view(),
                line@,
            ),
    {
        let ghost s0 = self@;
        let mut acts: Vec<Action> = Vec::new();
        if classify_ping(line) {
            let reply = make_ping_reply(line);
            acts.push(Action::SendLine(reply));
            if !self.join_sent {
                let jl = build_join_line(req.channel.as_slice());
                acts.push(Action::SendLine(jl));
                self.join_sent = true;
            }
        }
        proof {
            assert_seqs_equal!(actions_view(acts@)
                == keepalive_actions(s0, req.channel@, line@));
        }
        let ghost base1 = actions_view(acts@);
        if classify_join(line) && !self.requests_sent {
            let ghost pv = req.packages_view();
            let mut k: usize = 0;
            proof {
                assert_seqs_equal!(request_batch(req.bot@, pv.take(0)) == Seq::<SpecAction>::empty());
                assert_seqs_equal!(actions_view(acts@) == base1 + request_batch(req.bot@, pv.take(0)));
            }
            while k < req.packages.len()
                invariant
                    0 <= k <= req.packages@.len(),
                    pv == req.packages_view(),
                    actions_view(acts@) == base1 + request_batch(req.bot@, pv.take(k as int)),
                decreases req.packages@.len() - k,
            {
                let cmd = build_xdcc_line(req.bot.as_slice(), req.packages[k].as_slice());
                let ghost before = acts@;
                let a = Action::SendLine(cmd);
                let ghost av = a@;
                acts.push(a);
                proof {
                    lemma_actions_view_push(before, Action::SendLine(cmd));
                    assert(pv[k as int] == req.packages@[k as int]@);
                    assert(av == SpecAction::Send(xdcc_line(req.bot@, pv[k as int])));
                    lemma_batch_take_step(req.bot@, pv, k as int);
                    assert_seqs_equal!(actions_view(acts@)
                        == base1 + request_batch(req.bot@, pv.take(k + 1)));
                }
                k = k + 1;
            }
            self.requests_sent = true;
            proof {
                assert_seqs_equal!(pv.take(req.packages@.len() as int) == pv);
            }
        }
        proof {
            assert_seqs_equal!(actions_view(acts@)
                == base1 + (if batch_fires(s0, line@) { request_batch(req.bot@, req.packages_view()) }
                    else { Seq::<SpecAction>::empty() }));
        }
        let ghost base2 = actions_view(acts@);
        match parse_dcc_send(line) {
            DccScan::Offer(o) => {
                let cap = req.packages.len();
                proof {
                    assert(self.dispatched < cap);
                }
                self.dispatched = self.dispatched + 1;
                let ghost before = acts@;
                let ghost ov = o@;
                acts.push(Action::Spawn(o));
                proof {
                    lemma_actions_view_push(before, acts@.last());
                    assert(acts@.last()@ == SpecAction::Spawn(ov));
                }
            },
            DccScan::Malformed => {},
            DccScan::NotOffer => {},
        }
        proof {
            assert_seqs_equal!(actions_view(acts@)
                == step_actions(s0, req.channel@, req.bot@, req.packages_view(), line@));
        }
        acts
    }
}

/// The session state after reading a whole sequence of lines.
pub open spec fn run_state(s: SessionView, lines: Seq<Seq<u8>>) -> SessionView
    decreases lines.len(),
{
    if lines.len() == 0 {
        s
    } else {
        run_state(step_state(s, lines[0]), lines.skip(1))
    }
}

/// How often the join-request reaction fires over a sequence of lines.
pub open spec fn batch_fire_count(s: SessionView, lines: Seq<Seq<u8>>) -> nat
    decreases lines.len(),
{
    if lines.len() == 0 {
        0
    } else {
        (if batch_fires(s, lines[0]) {
            1nat
        } else {
            0nat
        }) + batch_fire_count(step_state(s, lines[0]), lines.skip(1))
    }
}

/// The join-request reaction fires at most once per session, however many
/// join-confirmation lines arrive; in a fresh session it fires exactly
/// once when at least one such line arrives, and never again after.
pub proof fn lemma_join_reaction_once(s: SessionView, lines: Seq<Seq<u8>>)
    ensures
        s.requests_sent ==> batch_fire_count(s, lines) == 0,
        batch_fire_count(s, lines) <= 1,
        !s.requests_sent ==> ((batch_fire_count(s, lines) == 1) <==> exists|k: int|
            0 <= k < lines.len() && is_join_line(lines[k])),
    decreases lines.len(),
{
    if lines.len() > 0 {
        let s1 = step_state(s, lines[0]);
        lemma_join_reaction_once(s1, lines.skip(1));
        if !s.requests_sent && !is_join_line(lines[0]) {
            assert(forall|j: int|
                0 <= j < lines.skip(1).len() ==> lines.skip(1)[j] == lines[j + 1]);
            if batch_fire_count(s, lines) == 1 {
                let k = choose|k: int|
                    0 <= k < lines.skip(1).len() && is_join_line(lines.skip(1)[k]);
                assert(is_join_line(lines[k + 1]));
            }
            if exists|k: int| 0 <= k < lines.len() && is_join_line(lines[k]) {
                let k = choose|k: int| 0 <= k < lines.len() && is_join_line(lines[k]);
                assert(k >= 1);
                assert(is_join_line(lines.skip(1)[k - 1]));
            }
        }
    }
}

/// Counts completion signals, success or failure alike, from the
/// transfers one session dispatched.
pub struct TransferLedger {
    pub expected: usize,
    pub succeeded: usize,
    pub failed: usize,
}

impl TransferLedger {
    /// Every signal belongs to one dispatched transfer.
    pub open spec fn wf(&self) -> bool {
        self.succeeded + self.failed <= self.expected
    }

    /// A ledger awaiting `expected` completion signals.
    pub fn new(expected: usize) -> (r: TransferLedger)
        ensures
            r.wf(),
            r.expected == expected,
            r.succeeded == 0,
            r.failed == 0,
    {
        TransferLedger { expected, succeeded: 0, failed: 0 }
    }

    /// Record one completion signal. A failure counts toward completion
    /// exactly as a success does.
    pub fn record(&mut self, success: bool)
        requires
            old(self).wf(),
            old(self).succeeded + old(self).failed < old(self).expected,
        ensures
            final(self).wf(),
            final(self).expected == old(self).expected,
            final(self).succeeded == old(self).succeeded + (if success { 1int } else { 0int }),
            final(self).failed == old(self).failed + (if success { 0int } else { 1int }),
    {
        if success {
            self.succeeded = self.succeeded + 1;
        } else {
            self.failed = self.failed + 1;
        }
    }

    /// Whether every dispatched transfer has signalled completion. The
    /// session must not end before this holds.
    pub fn is_complete(&self) -> (r: bool)
        requires
            self.wf(),
        ensures
            r == (self.succeeded + self.failed == self.expected),
    {
        self.succeeded + self.failed == self.expected
    }

    /// Whether every dispatched transfer succeeded; decides the exit status.
    pub fn all_succeeded(&self) -> (r: bool)
        ensures
            r == (self.succeeded == self.expected),
    {
        self.succeeded == self.expected
    }
}

} // verus!
