//! The instances, and which of them gets a message.

use crate::agent::loop_helpers;
use crate::agent::loop_helpers::hash_text;
use crate::gateway::config;
use crate::gateway::config::{resolve_label_by_weight, RoutingConfig};
use crate::gateway::upstream::IncomingMessage;
use crate::json;
use crate::json::{parse, Json, JsonView};
use crate::message;
use crate::orchestration::session_manager;
use crate::orchestration::session_manager::new_uuid;
use crate::order;
use crate::seqs;
use crate::text;
use crate::text::{str_contains, str_eq, str_take_chars};
use vstd::prelude::*;

verus! {

/// An instance that is connected.
#[derive(Debug)]
pub struct Backend {
    pub id: String,
    /// The label under which it has registered.
    pub label: String,
}

/// A new id for an instance: eight hexadecimal digits by chance.
pub fn new_backend_id() -> (r: String)
    ensures
        exists|tag: Seq<char>|
            tag.len() == 8 && (forall|i: int| 0 <= i < 8 ==> session_manager::is_hex(
                #[trigger] tag[i],
            )) && r@ == #[trigger] ("tyclaw-"@ + tag),
{
    let id = new_uuid();
    let tag = str_take_chars(id.as_str(), 8);
    proof {
        assert(tag@ =~= id@.take(8));
    }
    let mut r = "tyclaw-".to_owned();
    r.push_str(tag.as_str());
    r
}

/// Instances as pairs of an id and a label.
pub open spec fn backends_view(v: Seq<Backend>) -> Seq<(Seq<char>, Seq<char>)> {
    Seq::new(v.len(), |i: int| (v[i].id@, v[i].label@))
}

/// The instances that do not have that label.
pub open spec fn without_label(
    v: Seq<(Seq<char>, Seq<char>)>,
    label: Seq<char>,
) -> Seq<(Seq<char>, Seq<char>)>
    decreases v.len(),
{
    if v.len() == 0 {
        Seq::empty()
    } else if v.last().1 != label {
        without_label(v.drop_last(), label).push(v.last())
    } else {
        without_label(v.drop_last(), label)
    }
}

/// The ids of the instances that have that label.
pub open spec fn ids_with_label(v: Seq<(Seq<char>, Seq<char>)>, label: Seq<char>) -> Seq<Seq<char>>
    decreases v.len(),
{
    if v.len() == 0 {
        Seq::empty()
    } else if v.last().1 == label {
        ids_with_label(v.drop_last(), label).push(v.last().0)
    } else {
        ids_with_label(v.drop_last(), label)
    }
}

/// Whether no two instances have one label.
pub open spec fn labels_distinct(v: Seq<(Seq<char>, Seq<char>)>) -> bool {
    forall|i: int, j: int| 0 <= i < j < v.len() ==> (#[trigger] v[i]).1 != (#[trigger] v[j]).1
}

/// An instance that registers takes the place of those with its label, so that
/// no two instances ever have one label.
pub proof fn law_labels_stay_distinct(
    v: Seq<(Seq<char>, Seq<char>)>,
    id: Seq<char>,
    label: Seq<char>,
)
    requires
        labels_distinct(v),
    ensures
        labels_distinct(without_label(v, label).push((id, label))),
{
    lemma_without_label(v, label);
    let w = without_label(v, label);
    let s = w.push((id, label));
    assert forall|i: int, j: int| 0 <= i < j < s.len() implies (#[trigger] s[i]).1 != (
    #[trigger] s[j]).1 by {
        assert(s[i] == w[i]);
        if j < w.len() {
            assert(s[j] == w[j]);
        }
    }
}

proof fn lemma_without_label(v: Seq<(Seq<char>, Seq<char>)>, label: Seq<char>)
    ensures
        forall|i: int|
            0 <= i < without_label(v, label).len() ==> (#[trigger] without_label(v, label)[i]).1
                != label && v.contains(without_label(v, label)[i]),
        labels_distinct(v) ==> labels_distinct(without_label(v, label)),
    decreases v.len(),
{
    if v.len() > 0 {
        let p = v.drop_last();
        lemma_without_label(p, label);
        let w = without_label(v, label);
        let q = without_label(p, label);
        assert forall|i: int| 0 <= i < w.len() implies (#[trigger] w[i]).1 != label && v.contains(
            w[i],
        ) by {
            if i < q.len() {
                assert(w[i] == q[i]);
                let k = choose|k: int| 0 <= k < p.len() && p[k] == q[i];
                assert(v[k] == w[i]);
            } else {
                assert(v[v.len() - 1] == w[i]);
            }
        }
        if labels_distinct(v) {
            assert forall|i: int, j: int| 0 <= i < j < p.len() implies (#[trigger] p[i]).1 != (
            #[trigger] p[j]).1 by {
                assert(v[i].1 != v[j].1);
            }
            assert forall|i: int, j: int| 0 <= i < j < w.len() implies (#[trigger] w[i]).1 != (
            #[trigger] w[j]).1 by {
                assert(w[i] == q[i]);
                if j < q.len() {
                    assert(w[j] == q[j]);
                } else {
                    let k = choose|k: int| 0 <= k < p.len() && p[k] == q[i];
                    assert(v[k].1 != v[v.len() - 1].1);
                }
            }
        }
    }
}

// ---------------------------------------------------------------------------
// Choosing an instance
// ---------------------------------------------------------------------------

/// The label that a rule gives to a sender.
pub open spec fn rule_for(rules: Seq<(String, String)>, sender: Seq<char>) -> Option<Seq<char>>
    decreases rules.len(),
{
    if rules.len() == 0 {
        None
    } else if rules.last().0@ == sender {
        Some(rules.last().1@)
    } else {
        rule_for(rules.drop_last(), sender)
    }
}

/// The label to which a message goes, given the hash of its sender; any, where
/// neither rules nor shares speak of labels.
pub open spec fn wanted_label(r: RoutingConfig, sender: Seq<char>, hash: u64) -> Option<Seq<char>> {
    if r.mode@ == "route_table"@ {
        match rule_for(r.rules@, sender) {
            Some(l) => Some(l),
            None => Some(r.default@),
        }
    } else if r.weights@.len() == 0 {
        None
    } else {
        match config::label_at(config::scale(r.weights@), (hash % 100) as int) {
            Some(l) => Some(l),
            None => Some(r.default@),
        }
    }
}

/// Whether the instance at `i` can get a message for that label.
pub open spec fn serves(
    v: Seq<(Seq<char>, Seq<char>)>,
    label: Option<Seq<char>>,
) -> spec_fn(int) -> bool {
    |i: int|
        match label {
            Some(l) => v[i].1 == l,
            None => true,
        }
}

/// The instance that gets a message, given the hash of its sender; none, where
/// no instance can.
pub open spec fn chosen(
    v: Seq<(Seq<char>, Seq<char>)>,
    r: RoutingConfig,
    sender: Seq<char>,
    hash: u64,
) -> Option<int> {
    let able = seqs::indexes(serves(v, wanted_label(r, sender, hash)), v.len() as int);
    if able.len() == 0 {
        None
    } else {
        Some(able[(hash as usize) as int % able.len() as int])
    }
}

fn find_rule(rules: &Vec<(String, String)>, sender: &str) -> (r: Option<String>)
    ensures
        message::opt_text(r) == rule_for(rules@, sender@),
{
    let mut i: usize = rules.len();
    proof {
        assert(rules@.take(i as int) =~= rules@);
    }
    while i > 0
        invariant
            0 <= i <= rules@.len(),
            rule_for(rules@, sender@) == rule_for(rules@.take(i as int), sender@),
        decreases i,
    {
        proof {
            assert(rules@.take(i as int).drop_last() =~= rules@.take(i - 1));
            assert(rules@.take(i as int).last() == rules@[i - 1]);
        }
        if str_eq(rules[i - 1].0.as_str(), sender) {
            return Some(rules[i - 1].1.clone());
        }
        i -= 1;
    }
    None
}

fn label_wanted(r: &RoutingConfig, sender: &str, hash: u64) -> (l: Option<String>)
    ensures
        message::opt_text(l) == wanted_label(*r, sender@, hash),
{
    if str_eq(r.mode.as_str(), "route_table") {
        return match find_rule(&r.rules, sender) {
            Some(l) => Some(l),
            None => Some(r.default.clone()),
        };
    }
    if r.weights.len() == 0 {
        return None;
    }
    match resolve_label_by_weight(&r.weights, (hash % 100) as u32) {
        Some(l) => Some(l),
        None => Some(r.default.clone()),
    }
}

/// The instance that gets a message, given the hash of its sender.
pub fn choose_backend(backends: &Vec<Backend>, r: &RoutingConfig, sender: &str, hash: u64) -> (i:
    Option<usize>)
    ensures
        (match i {
            Some(k) => Some(k as int),
            None => None::<int>,
        }) == chosen(backends_view(backends@), *r, sender@, hash),
        i matches Some(k) ==> k < backends@.len(),
{
    let label = label_wanted(r, sender, hash);
    let ghost v = backends_view(backends@);
    let ghost f = serves(v, message::opt_text(label));
    let n: usize = backends.len();
    let mut able: Vec<usize> = Vec::new();
    let mut i: usize = 0;
    while i < n
        invariant
            0 <= i <= n,
            n == backends@.len(),
            v == backends_view(backends@),
            f == serves(v, message::opt_text(label)),
            able@.len() == seqs::indexes(f, i as int).len(),
            forall|k: int|
                0 <= k < able@.len() ==> #[trigger] able@[k] == seqs::indexes(f, i as int)[k],
        decreases n - i,
    {
        let ok = match &label {
            Some(l) => str_eq(backends[i].label.as_str(), l.as_str()),
            None => true,
        };
        proof {
            assert(ok == f(i as int));
        }
        if ok {
            able.push(i);
        }
        i += 1;
    }
    proof {
        seqs::lemma_indexes(f, n as int);
    }
    if able.len() == 0 {
        return None;
    }
    let k: usize = (hash as usize) % able.len();
    proof {
        let c = seqs::indexes(f, n as int);
        assert(able@[k as int] == c[k as int]);
    }
    Some(able[k])
}

/// A message goes to an instance with the label that is wanted, and it goes to
/// one whenever there is one.
pub proof fn law_choice_has_the_label(
    v: Seq<(Seq<char>, Seq<char>)>,
    r: RoutingConfig,
    sender: Seq<char>,
    hash: u64,
)
    ensures
        chosen(v, r, sender, hash) matches Some(i) ==> 0 <= i < v.len() && (wanted_label(
            r,
            sender,
            hash,
        ) matches Some(l) ==> v[i].1 == l),
        (exists|i: int|
            0 <= i < v.len() && #[trigger] serves(v, wanted_label(r, sender, hash))(i)) ==> chosen(
            v,
            r,
            sender,
            hash,
        ) is Some,
{
    let f = serves(v, wanted_label(r, sender, hash));
    seqs::lemma_indexes(f, v.len() as int);
    let able = seqs::indexes(f, v.len() as int);
    if able.len() > 0 {
        let k = (hash as usize) as int % able.len() as int;
        assert(0 <= k < able.len());
        assert(f(able[k]));
    }
}

// ---------------------------------------------------------------------------
// The instances
// ---------------------------------------------------------------------------

/// Whether messages are handed on yet.
#[derive(Debug, Clone, Copy, PartialEq, Eq, Structural)]
pub enum Readiness {
    /// No instance is there.
    NoBackend,
    /// Instances may still come.
    Settling,
    Ready,
}

/// Something that matters for when messages are handed on.
#[derive(Debug, Clone, Copy, PartialEq, Eq, Structural)]
pub enum ReadyEvent {
    BackendConnected,
    /// Nothing has come for as long as was agreed.
    WaitedLongEnough,
}

/// Whether messages are handed on after an event: not before an instance came
/// and no other followed for a while.
pub open spec fn readiness_after(r: Readiness, e: ReadyEvent) -> Readiness {
    match r {
        Readiness::NoBackend => if e == ReadyEvent::BackendConnected {
            Readiness::Settling
        } else {
            Readiness::NoBackend
        },
        Readiness::Settling => if e == ReadyEvent::WaitedLongEnough {
            Readiness::Ready
        } else {
            Readiness::Settling
        },
        Readiness::Ready => Readiness::Ready,
    }
}

/// What is done with a message.
#[derive(Debug)]
pub enum Dispatch {
    /// No instance can take it: the sender is told to wait, where the message
    /// says how.
    Maintenance { reply: Option<(String, Json)> },
    /// The instance at `backend` gets this text.
    Send { backend: usize, envelope: String },
}

/// The instances, and how messages are shared out among them.
#[derive(Debug)]
pub struct DownstreamManager {
    pub backends: Vec<Backend>,
    pub routing: RoutingConfig,
    pub readiness: Readiness,
    pub ready_wait_secs: u64,
    /// The messages that came before there was an instance for them, in order.
    pub held: Vec<IncomingMessage>,
}

/// What an instance is sent for a message.
pub open spec fn envelope_json(m: IncomingMessage) -> JsonView {
    JsonView::Object(
        seq![
            ("conversation_id"@, JsonView::Text(m.conversation_id@)),
            ("data"@, JsonView::Text(m.data@)),
            ("message_id"@, JsonView::Text(m.message_id@)),
            ("sender_id"@, JsonView::Text(m.sender_id@)),
            ("type"@, JsonView::Text("message"@)),
        ],
    )
}

/// What an instance is sent for a message.
pub fn envelope(m: &IncomingMessage) -> (r: String)
    ensures
        r@ == json::json_text(envelope_json(*m)),
{
    let mut o: Vec<(String, Json)> = Vec::new();
    o.push(("conversation_id".to_owned(), Json::Text(m.conversation_id.clone())));
    o.push(("data".to_owned(), Json::Text(m.data.clone())));
    o.push(("message_id".to_owned(), Json::Text(m.message_id.clone())));
    o.push(("sender_id".to_owned(), Json::Text(m.sender_id.clone())));
    o.push(("type".to_owned(), Json::Text("message".to_owned())));
    proof {
        json::lemma_members_view(o@);
        assert(json::members_view(o@) =~= envelope_json(*m)->Object_0);
    }
    let v = Json::Object(o);
    v.render()
}

impl DownstreamManager {
    /// No instance is there yet.
    pub fn new(ready_wait_secs: u64, routing: RoutingConfig) -> (r: Self)
        ensures
            r.backends@.len() == 0,
            r.routing == routing,
            r.readiness == Readiness::NoBackend,
            r.ready_wait_secs == ready_wait_secs,
            r.held@.len() == 0,
    {
        DownstreamManager {
            backends: Vec::new(),
            routing,
            readiness: Readiness::NoBackend,
            ready_wait_secs,
            held: Vec::new(),
        }
    }

    /// Shares messages out in another way from now on.
    pub fn swap_routing(&mut self, new_routing: RoutingConfig)
        ensures
            *final(self) == (DownstreamManager { routing: new_routing, ..*old(self) }),
    {
        self.routing = new_routing;
    }

    /// Whether messages are handed on.
    pub fn is_ready(&self) -> (r: bool)
        ensures
            r == (self.readiness == Readiness::Ready),
    {
        self.readiness == Readiness::Ready
    }

    /// Takes in an event that matters for when messages are handed on. Once
    /// they are, those that came before come back, in order.
    pub fn wait_ready(&mut self, event: ReadyEvent) -> (released: Vec<IncomingMessage>)
        ensures
            *final(self) == (DownstreamManager {
                readiness: readiness_after(old(self).readiness, event),
                held: final(self).held,
                ..*old(self)
            }),
            final(self).readiness == Readiness::Ready ==> released@ == old(self).held@
                && final(self).held@.len() == 0,
            final(self).readiness != Readiness::Ready ==> released@.len() == 0 && final(self).held
                == old(self).held,
    {
        self.readiness = match (self.readiness, event) {
            (Readiness::NoBackend, ReadyEvent::BackendConnected) => Readiness::Settling,
            (Readiness::Settling, ReadyEvent::WaitedLongEnough) => Readiness::Ready,
            (r, _) => r,
        };
        let mut released: Vec<IncomingMessage> = Vec::new();
        if self.readiness == Readiness::Ready {
            std::mem::swap(&mut released, &mut self.held);
        }
        released
    }

    /// Takes on an instance. Those with its label have to go; their ids are
    /// handed back.
    pub fn handle_backend(&mut self, id: String, label: String) -> (evicted: Vec<String>)
        ensures
            backends_view(final(self).backends@) == without_label(
                backends_view(old(self).backends@),
                label@,
            ).push((id@, label@)),
            text::texts(evicted@) == ids_with_label(backends_view(old(self).backends@), label@),
            final(self).routing == old(self).routing,
            final(self).readiness == old(self).readiness,
            final(self).ready_wait_secs == old(self).ready_wait_secs,
            final(self).held == old(self).held,
    {
        let ghost v = backends_view(self.backends@);
        let mut kept: Vec<Backend> = Vec::new();
        let mut evicted: Vec<String> = Vec::new();
        let mut i: usize = 0;
        proof {
            assert(backends_view(kept@) =~= without_label(v.take(0), label@));
            assert(text::texts(evicted@) =~= ids_with_label(v.take(0), label@));
        }
        while i < self.backends.len()
            invariant
                0 <= i <= self.backends@.len(),
                v == backends_view(self.backends@),
                backends_view(kept@) == without_label(v.take(i as int), label@),
                text::texts(evicted@) == ids_with_label(v.take(i as int), label@),
            decreases self.backends@.len() - i,
        {
            let ghost k0 = kept@;
            let ghost e0 = evicted@;
            proof {
                assert(v.take(i + 1).drop_last() =~= v.take(i as int));
                assert(v.take(i + 1).last() == v[i as int]);
            }
            let b = &self.backends[i];
            if str_eq(b.label.as_str(), label.as_str()) {
                evicted.push(b.id.clone());
                proof {
                    assert(text::texts(evicted@) =~= text::texts(e0).push(v[i as int].0));
                }
            } else {
                kept.push(Backend { id: b.id.clone(), label: b.label.clone() });
                proof {
                    assert(backends_view(kept@) =~= backends_view(k0).push(v[i as int]));
                }
            }
            i += 1;
        }
        proof {
            assert(v.take(i as int) =~= v);
        }
        let ghost k1 = kept@;
        let ghost pair = (id@, label@);
        kept.push(Backend { id, label });
        proof {
            assert(backends_view(kept@) =~= backends_view(k1).push(pair));
        }
        self.backends = kept;
        evicted
    }

    /// Lets the first instance of that id go.
    pub fn remove_backend(&mut self, id: &str)
        ensures
            (forall|i: int|
                0 <= i < old(self).backends@.len() ==> (#[trigger] old(self).backends@[i]).id@
                    != id@) ==> final(self).backends@ == old(self).backends@,
            forall|i: int|
                0 <= i < old(self).backends@.len() && (#[trigger] old(self).backends@[i]).id@
                    == id@ && (forall|j: int|
                    0 <= j < i ==> (#[trigger] old(self).backends@[j]).id@ != id@)
                    ==> final(self).backends@ == old(self).backends@.remove(i),
            final(self).routing == old(self).routing,
            final(self).readiness == old(self).readiness,
            final(self).ready_wait_secs == old(self).ready_wait_secs,
            final(self).held == old(self).held,
    {
        let mut i: usize = 0;
        while i < self.backends.len()
            invariant
                0 <= i <= self.backends@.len(),
                *self == *old(self),
                forall|k: int| 0 <= k < i ==> (#[trigger] self.backends@[k]).id@ != id@,
            decreases self.backends@.len() - i,
        {
            if str_eq(self.backends[i].id.as_str(), id) {
                let _gone = self.backends.remove(i);
                return;
            }
            i += 1;
        }
    }

    /// What is done with a message. Messages of one sender go to one instance
    /// as long as neither the instances nor the routing change. One that comes
    /// too early is kept.
    pub fn dispatch(&mut self, msg: IncomingMessage) -> (r: Dispatch)
        ensures
            old(self).readiness != Readiness::Ready ==> is_maintenance(r, msg) && *final(self) == (
            DownstreamManager { held: final(self).held, ..*old(self) }) && final(self).held@
                == old(self).held@.push(msg),
            old(self).readiness == Readiness::Ready ==> *final(self) == *old(self) && match chosen(
                backends_view(old(self).backends@),
                old(self).routing,
                msg.sender_id@,
                loop_helpers::text_hash(msg.sender_id@),
            ) {
                Some(i) => r matches Dispatch::Send { backend, envelope: e } && backend == i && e@
                    == json::json_text(envelope_json(msg)),
                None => is_maintenance(r, msg),
            },
    {
        if !self.is_ready() {
            let reply = send_maintenance_reply(msg.data.as_str());
            self.held.push(msg);
            return Dispatch::Maintenance { reply };
        }
        let hash: u64 = hash_text(msg.sender_id.as_str());
        match choose_backend(&self.backends, &self.routing, msg.sender_id.as_str(), hash) {
            Some(backend) => Dispatch::Send { backend, envelope: envelope(&msg) },
            None => Dispatch::Maintenance { reply: send_maintenance_reply(msg.data.as_str()) },
        }
    }
}

// ---------------------------------------------------------------------------
// What instances send, and what senders are told
// ---------------------------------------------------------------------------

/// The label in a message by which an instance registers.
pub open spec fn registered_label(v: Option<JsonView>) -> Option<Seq<char>> {
    match v {
        Some(j) => if j.get_text("type"@) == Some("register"@) {
            j.get_text("label"@)
        } else {
            None
        },
        None => None,
    }
}

/// The label in a value by which an instance registers.
pub fn label_in(v: &Option<Json>) -> (r: Option<String>)
    ensures
        message::opt_text(r) == registered_label(
            match *v {
                Some(j) => Some(j@),
                None => None,
            },
        ),
{
    match v {
        Some(j) => {
            let registers = match j.get_text("type") {
                Some(t) => str_eq(t, "register"),
                None => false,
            };
            if !registers {
                return None;
            }
            match j.get_text("label") {
                Some(l) => Some(l.to_owned()),
                None => None,
            }
        },
        None => None,
    }
}

/// The label in a message by which an instance registers.
pub fn wait_register(text: &str) -> (r: Option<String>)
    ensures
        message::opt_text(r) == registered_label(json::parsed(text@)),
{
    let v = parse(text);
    label_in(&v)
}

/// Whether a message of an instance is a sign of life.
pub fn is_heartbeat(text: &str) -> (r: bool)
    ensures
        r == (text::contains(text@, "\"type\":\"ping\""@) || text::contains(
            text@,
            "\"type\":\"heartbeat\""@,
        )),
{
    str_contains(text, "\"type\":\"ping\"") || str_contains(text, "\"type\":\"heartbeat\"")
}

/// What a sender is told while no instance can take messages.
pub open spec fn maintenance_json() -> JsonView {
    JsonView::Object(
        seq![
            ("msgtype"@, JsonView::Text("text"@)),
            (
                "text"@,
                JsonView::Object(
                    seq![("content"@, JsonView::Text("请耐心等待，服务维护中..."@))],
                ),
            ),
        ],
    )
}

fn maintenance_body() -> (r: Json)
    ensures
        r@ == maintenance_json(),
{
    let mut t: Vec<(String, Json)> = Vec::new();
    t.push(("content".to_owned(), Json::Text("请耐心等待，服务维护中...".to_owned())));
    proof {
        json::lemma_members_view(t@);
        assert(json::members_view(t@) =~= seq![
            ("content"@, JsonView::Text("请耐心等待，服务维护中..."@)),
        ]);
    }
    let mut m: Vec<(String, Json)> = Vec::new();
    m.push(("msgtype".to_owned(), Json::Text("text".to_owned())));
    m.push(("text".to_owned(), Json::Object(t)));
    proof {
        json::lemma_members_view(m@);
        assert(json::members_view(m@) =~= maintenance_json()->Object_0);
    }
    Json::Object(m)
}

/// What the sender of a message with that data is told while no instance can
/// take it, and where: the address that the message gives, where it gives one.
pub open spec fn maintenance_of(data: Seq<char>) -> Option<(Seq<char>, JsonView)> {
    match json::parsed(data) {
        Some(v) => match v.get_text("sessionWebhook"@) {
            Some(url) => Some((url, maintenance_json())),
            None => None,
        },
        None => None,
    }
}

/// An answer as mathematical data.
pub open spec fn reply_view(r: Option<(String, Json)>) -> Option<(Seq<char>, JsonView)> {
    match r {
        Some(p) => Some((p.0@, p.1@)),
        None => None,
    }
}

/// Whether the sender of a message is told to wait.
pub open spec fn is_maintenance(d: Dispatch, msg: IncomingMessage) -> bool {
    d matches Dispatch::Maintenance { reply } && reply_view(reply) == maintenance_of(msg.data@)
}

/// What the sender of a message is told while no instance can take it, and
/// where.
pub fn send_maintenance_reply(data: &str) -> (r: Option<(String, Json)>)
    ensures
        reply_view(r) == maintenance_of(data@),
{
    match parse(data) {
        Some(v) => match v.get_text("sessionWebhook") {
            Some(url) => Some((url.to_owned(), maintenance_body())),
            None => None,
        },
        None => None,
    }
}

// ---------------------------------------------------------------------------
// Laws
// ---------------------------------------------------------------------------

proof fn lemma_all_indexes(f: spec_fn(int) -> bool, n: int)
    requires
        0 <= n,
        forall|i: int| 0 <= i < n ==> #[trigger] f(i),
    ensures
        seqs::indexes(f, n).len() == n,
        forall|i: int| 0 <= i < n ==> #[trigger] seqs::indexes(f, n)[i] == i,
    decreases n,
{
    if n > 0 {
        assert(f(n - 1));
        lemma_all_indexes(f, n - 1);
    }
}

/// Without a route table and without shares all of the instances take part:
/// the hash of the sender, taken modulo their number, says which one gets the
/// message.
pub proof fn law_senders_are_spread(
    v: Seq<(Seq<char>, Seq<char>)>,
    r: RoutingConfig,
    sender: Seq<char>,
    hash: u64,
)
    requires
        r.mode@ != "route_table"@,
        r.weights@.len() == 0,
        v.len() > 0,
    ensures
        chosen(v, r, sender, hash) == Some((hash as usize) as int % v.len() as int),
{
    let f = serves(v, None);
    assert forall|i: int| 0 <= i < v.len() implies #[trigger] f(i) by {}
    lemma_all_indexes(f, v.len() as int);
    let k = (hash as usize) as int % v.len() as int;
    assert(0 <= k < v.len());
}

/// Without a route table and without shares every instance gets the messages
/// of some senders: there is a hash for which it is the one.
pub proof fn law_every_instance_is_reached(
    v: Seq<(Seq<char>, Seq<char>)>,
    r: RoutingConfig,
    sender: Seq<char>,
    k: int,
)
    requires
        r.mode@ != "route_table"@,
        r.weights@.len() == 0,
        0 <= k < v.len() <= usize::MAX,
    ensures
        exists|hash: u64| #[trigger] chosen(v, r, sender, hash) == Some(k),
{
    let h = k as u64;
    law_senders_are_spread(v, r, sender, h);
    assert((h as usize) as int == k);
    vstd::arithmetic::div_mod::lemma_small_mod(k as nat, v.len());
    assert(chosen(v, r, sender, h) == Some(k));
}

/// Among the instances with the label that is wanted the hash chooses too:
/// the `n`-th of them is taken where the hash leaves `n` modulo their number.
pub proof fn law_equals_share_the_senders(
    v: Seq<(Seq<char>, Seq<char>)>,
    r: RoutingConfig,
    sender: Seq<char>,
    hash: u64,
    label: Seq<char>,
    i: int,
)
    requires
        wanted_label(r, sender, hash) == Some(label),
        0 <= i < v.len(),
        v[i].1 == label,
        (hash as usize) as int % (seqs::count(v, has_label(label)) as int) == seqs::count(
            v.take(i),
            has_label(label),
        ),
    ensures
        chosen(v, r, sender, hash) == Some(i),
{
    let f = serves(v, Some(label));
    lemma_index_of(v, label, v.len() as int);
    assert(v.take(v.len() as int) =~= v);
    assert(f(i));
}

/// Holds of the instances with that label.
pub open spec fn has_label(label: Seq<char>) -> spec_fn((Seq<char>, Seq<char>)) -> bool {
    |b: (Seq<char>, Seq<char>)| b.1 == label
}

proof fn lemma_index_of(v: Seq<(Seq<char>, Seq<char>)>, label: Seq<char>, n: int)
    requires
        0 <= n <= v.len(),
    ensures
        ({
            let able = seqs::indexes(serves(v, Some(label)), n);
            &&& able.len() == seqs::count(v.take(n), has_label(label))
            &&& forall|i: int|
                0 <= i < n && (#[trigger] v[i]).1 == label ==> seqs::count(
                    v.take(i),
                    has_label(label),
                ) < able.len() && able[seqs::count(v.take(i), has_label(label)) as int] == i
        }),
    decreases n,
{
    if n > 0 {
        lemma_index_of(v, label, n - 1);
        assert(v.take(n).drop_last() =~= v.take(n - 1));
        assert(v.take(n).last() == v[n - 1]);
        let able = seqs::indexes(serves(v, Some(label)), n);
        let before = seqs::indexes(serves(v, Some(label)), n - 1);
        assert forall|i: int| 0 <= i < n && (#[trigger] v[i]).1 == label implies seqs::count(
            v.take(i),
            has_label(label),
        ) < able.len() && able[seqs::count(v.take(i), has_label(label)) as int] == i by {
            if i < n - 1 {
                assert(before[seqs::count(v.take(i), has_label(label)) as int] == i);
            }
        }
    } else {
        assert(v.take(0) =~= Seq::empty());
    }
}

proof fn lemma_rule_for(rules: Seq<(String, String)>, sender: Seq<char>)
    ensures
        forall|i: int|
            0 <= i < rules.len() && (#[trigger] rules[i]).0@ == sender && (forall|j: int|
                i < j < rules.len() ==> (#[trigger] rules[j]).0@ != sender) ==> rule_for(
                rules,
                sender,
            ) == Some(rules[i].1@),
        (forall|i: int| 0 <= i < rules.len() ==> (#[trigger] rules[i]).0@ != sender) ==> rule_for(
            rules,
            sender,
        ) is None,
    decreases rules.len(),
{
    if rules.len() > 0 {
        let p = rules.drop_last();
        let last = rules.len() - 1;
        lemma_rule_for(p, sender);
        assert forall|i: int|
            0 <= i < rules.len() && (#[trigger] rules[i]).0@ == sender && (forall|j: int|
                i < j < rules.len() ==> (#[trigger] rules[j]).0@ != sender) implies rule_for(
            rules,
            sender,
        ) == Some(rules[i].1@) by {
            if i < last {
                assert(rules[last].0@ != sender);
                assert(p[i] == rules[i]);
                assert forall|j: int| i < j < p.len() implies (#[trigger] p[j]).0@ != sender by {
                    assert(p[j] == rules[j]);
                }
            }
        }
        if forall|i: int| 0 <= i < rules.len() ==> (#[trigger] rules[i]).0@ != sender {
            assert(rules[last].0@ != sender);
            assert forall|j: int| 0 <= j < p.len() implies (#[trigger] p[j]).0@ != sender by {
                assert(p[j] == rules[j]);
            }
        }
    }
}

/// A route table is followed: the messages of a sender go to an instance with
/// the label that the table gives, those of others to one with the default
/// label, and whenever there is such an instance they go to one.
pub proof fn law_route_table_is_followed(
    v: Seq<(Seq<char>, Seq<char>)>,
    r: RoutingConfig,
    sender: Seq<char>,
    hash: u64,
    label: Seq<char>,
    i: int,
)
    requires
        r.mode@ == "route_table"@,
        (0 <= i < r.rules@.len() && r.rules@[i].0@ == sender && r.rules@[i].1@ == label && (
        forall|j: int| i < j < r.rules@.len() ==> (#[trigger] r.rules@[j]).0@ != sender)) || ((
        forall|j: int| 0 <= j < r.rules@.len() ==> (#[trigger] r.rules@[j]).0@ != sender) && label
            == r.default@),
    ensures
        chosen(v, r, sender, hash) matches Some(k) ==> 0 <= k < v.len() && v[k].1 == label,
        (exists|k: int| 0 <= k < v.len() && (#[trigger] v[k]).1 == label) ==> chosen(
            v,
            r,
            sender,
            hash,
        ) is Some,
{
    lemma_rule_for(r.rules@, sender);
    assert(wanted_label(r, sender, hash) == Some(label));
    law_choice_has_the_label(v, r, sender, hash);
    if exists|k: int| 0 <= k < v.len() && (#[trigger] v[k]).1 == label {
        let k = choose|k: int| 0 <= k < v.len() && (#[trigger] v[k]).1 == label;
        assert(serves(v, wanted_label(r, sender, hash))(k));
    }
}

/// Shares are kept: of a hundred hashes in a row each label gets as many as its
/// share, those that stand behind the shares of the labels before it in order.
pub proof fn law_shares_are_kept(
    v: Seq<(Seq<char>, Seq<char>)>,
    r: RoutingConfig,
    sender: Seq<char>,
    hash: u64,
    i: int,
)
    requires
        r.mode@ != "route_table"@,
        r.weights@.len() > 0,
        0 <= i < config::scale(r.weights@).len(),
        config::weight_sum(config::scale(r.weights@).take(i)) <= hash % 100,
        hash % 100 < config::weight_sum(config::scale(r.weights@).take(i)) + config::scale(
            r.weights@,
        )[i].1,
    ensures
        chosen(v, r, sender, hash) matches Some(k) ==> 0 <= k < v.len() && v[k].1 == config::scale(
            r.weights@,
        )[i].0,
        (exists|k: int|
            0 <= k < v.len() && (#[trigger] v[k]).1 == config::scale(r.weights@)[i].0) ==> chosen(
            v,
            r,
            sender,
            hash,
        ) is Some,
        order::in_order(config::scale(r.weights@)),
        config::scale(r.weights@).to_multiset() == config::weighed(r.weights@).to_multiset(),
{
    let w = config::scale(r.weights@);
    config::law_share_is_as_large_as_its_weight(w, i, (hash % 100) as int);
    order::law_sorted(config::weighed(r.weights@));
    assert(wanted_label(r, sender, hash) == Some(w[i].0));
    law_choice_has_the_label(v, r, sender, hash);
    if exists|k: int| 0 <= k < v.len() && (#[trigger] v[k]).1 == w[i].0 {
        let k = choose|k: int| 0 <= k < v.len() && (#[trigger] v[k]).1 == w[i].0;
        assert(serves(v, wanted_label(r, sender, hash))(k));
    }
}

/// Taking on an instance lets exactly those with its label go: of the others
/// all stay, in order, and of those that go the ids are known.
pub proof fn law_others_stay_connected(
    v: Seq<(Seq<char>, Seq<char>)>,
    label: Seq<char>,
    x: (Seq<char>, Seq<char>),
)
    ensures
        without_label(v, label).contains(x) <==> v.contains(x) && x.1 != label,
        v.contains(x) && x.1 == label ==> ids_with_label(v, label).contains(x.0),
        without_label(v, label).len() + ids_with_label(v, label).len() == v.len(),
    decreases v.len(),
{
    if v.len() > 0 {
        let p = v.drop_last();
        let y = v.last();
        law_others_stay_connected(p, label, x);
        assert(v =~= p.push(y));
        seqs::lemma_push_contains(p, y, x);
        seqs::lemma_push_contains(without_label(p, label), y, x);
        seqs::lemma_push_contains(ids_with_label(p, label), y.0, x.0);
    }
}

/// What an instance is sent says what came in, from whom and in which chat.
pub proof fn law_envelope_tells_the_message(m: IncomingMessage)
    ensures
        ({
            let e = envelope_json(m);
            &&& e.get_text("message_id"@) == Some(m.message_id@)
            &&& e.get_text("conversation_id"@) == Some(m.conversation_id@)
            &&& e.get_text("sender_id"@) == Some(m.sender_id@)
            &&& e.get_text("data"@) == Some(m.data@)
            &&& e.get_text("type"@) == Some("message"@)
        }),
        json::is_regular(envelope_json(m), 100),
{
    reveal_strlit("conversation_id");
    reveal_strlit("data");
    reveal_strlit("message_id");
    reveal_strlit("sender_id");
    reveal_strlit("type");
    assert("data"@[0] != "type"@[0]);
    assert("conversation_id"@.len() == 15 && "data"@.len() == 4 && "message_id"@.len() == 10
        && "sender_id"@.len() == 9 && "type"@.len() == 4);
    let o = envelope_json(m)->Object_0;
    reveal_with_fuel(json::member, 6);
    assert(o.drop_last() =~= o.take(4));
    assert(o.take(4).drop_last() =~= o.take(3));
    assert(o.take(3).drop_last() =~= o.take(2));
    assert(o.take(2).drop_last() =~= o.take(1));
    reveal_with_fuel(order::before, 2);
    assert(json::keys_rise(o)) by {
        vstd::utf8::char_u32_cast('c', 'c' as u32);
        vstd::utf8::char_u32_cast('d', 'd' as u32);
        vstd::utf8::char_u32_cast('m', 'm' as u32);
        vstd::utf8::char_u32_cast('s', 's' as u32);
        vstd::utf8::char_u32_cast('t', 't' as u32);
    }
    assert forall|i: int| 0 <= i < o.len() implies json::is_regular((#[trigger] o[i]).1, 99) by {
        assert(o[i].1 is Text);
    }
}

/// Messages are handed on once an instance has come and nothing more follows
/// for a while, and from then on for good.
pub proof fn law_ready_stays_ready(r: Readiness, e: ReadyEvent)
    ensures
        r == Readiness::Ready ==> readiness_after(r, e) == Readiness::Ready,
        readiness_after(
            readiness_after(r, ReadyEvent::BackendConnected),
            ReadyEvent::WaitedLongEnough,
        ) == Readiness::Ready,
        r == Readiness::NoBackend ==> readiness_after(r, e) != Readiness::Ready,
        e == ReadyEvent::BackendConnected && r != Readiness::Ready ==> readiness_after(r, e)
            == Readiness::Settling,
{
}

/// An instance registers under the label that it gives.
pub proof fn law_instances_register_by_label(j: JsonView, label: Seq<char>)
    ensures
        j.get_text("type"@) == Some("register"@) && j.get_text("label"@) == Some(label)
            ==> registered_label(Some(j)) == Some(label),
        j.get_text("type"@) != Some("register"@) ==> registered_label(Some(j)) is None,
{
}

/// A sender who is told to wait is told so at the address that the message
/// gives.
pub proof fn law_waiting_sender_is_answered(data: Seq<char>, v: JsonView, url: Seq<char>)
    requires
        json::parsed(data) == Some(v),
        v.get_text("sessionWebhook"@) == Some(url),
    ensures
        maintenance_of(data) matches Some(r) && r.0 == url && r.1.get_text("msgtype"@) == Some(
            "text"@,
        ),
{
    reveal_strlit("msgtype");
    reveal_strlit("text");
    assert("msgtype"@.len() == 7 && "text"@.len() == 4);
    json::lemma_member_at(maintenance_json()->Object_0, 0);
}

} // verus!
