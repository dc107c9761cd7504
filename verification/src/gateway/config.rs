//! How the gateway is set up.

use crate::order;
use crate::order::str_before;
use crate::text;
use crate::text::decimal;
use vstd::prelude::*;

verus! {

/// How the gateway is set up.
#[derive(Debug)]
pub struct GatewayConfig {
    pub dingtalk: DingTalkConfig,
    pub gateway: ServerConfig,
    pub routing: RoutingConfig,
}

/// Which instance gets which messages.
#[derive(Debug)]
pub struct RoutingConfig {
    /// `route_table` for rules; anything else for shares.
    pub mode: String,
    /// The label of the instance that gets what no rule or share speaks of.
    pub default: String,
    /// The label for a sender.
    pub rules: Vec<(String, String)>,
    /// The share of each label in percent.
    pub weights: Vec<(String, u32)>,
}

impl Default for RoutingConfig {
    fn default() -> (r: Self)
        ensures
            r.mode@ == "hash"@,
            r.default@ == "python"@,
            r.rules@.len() == 0,
            r.weights@.len() == 0,
    {
        RoutingConfig {
            mode: "hash".to_owned(),
            default: "python".to_owned(),
            rules: Vec::new(),
            weights: Vec::new(),
        }
    }
}

/// Who the gateway is, and how many connections it makes.
#[derive(Debug)]
pub struct DingTalkConfig {
    pub client_id: String,
    pub client_secret: String,
    pub upstream_connections: usize,
}

/// How many connections are made where nothing is said.
pub fn default_upstream() -> (r: usize)
    ensures
        r == 30,
{
    30
}

/// Where instances are taken on.
#[derive(Debug)]
pub struct ServerConfig {
    pub listen_addr: String,
    /// How many seconds without a further instance it takes until messages are
    /// handed on; those that come before are kept until then.
    pub ready_wait_secs: u64,
}

impl Default for ServerConfig {
    fn default() -> (r: Self)
        ensures
            r.listen_addr@ == "0.0.0.0:9100"@,
            r.ready_wait_secs == 10,
    {
        ServerConfig { listen_addr: "0.0.0.0:9100".to_owned(), ready_wait_secs: 10 }
    }
}

/// Shares as mathematical data.
pub open spec fn weighed(w: Seq<(String, u32)>) -> Seq<(Seq<char>, nat)> {
    Seq::new(w.len(), |i: int| (w[i].0@, w[i].1 as nat))
}

/// What shares come to together.
pub open spec fn weight_sum(w: Seq<(Seq<char>, nat)>) -> nat
    decreases w.len(),
{
    if w.len() == 0 {
        0
    } else {
        weight_sum(w.drop_last()) + w.last().1
    }
}

/// What shares come to together.
pub fn sum_weights(w: &Vec<(String, u32)>) -> (r: u128)
    ensures
        r == weight_sum(weighed(w@)),
{
    let mut sum: u128 = 0;
    let mut i: usize = 0;
    let ghost all = weighed(w@);
    proof {
        assert(all.take(0) =~= Seq::empty());
    }
    while i < w.len()
        invariant
            0 <= i <= w@.len(),
            all == weighed(w@),
            sum == weight_sum(all.take(i as int)),
            sum <= i * 0xffff_ffff,
        decreases w@.len() - i,
    {
        proof {
            assert(all.take(i + 1).drop_last() =~= all.take(i as int));
            assert(all.take(i + 1).last() == all[i as int]);
            assert((i + 1) * 0xffff_ffff == i * 0xffff_ffff + 0xffff_ffff);
            assert(i * 0xffff_ffff <= 0xffff_ffff_ffff_ffff * 0xffff_ffff);
        }
        sum = sum + w[i].1 as u128;
        i += 1;
    }
    proof {
        assert(all.take(i as int) =~= all);
    }
    sum
}

/// Whether shares can be used: there are none, or they come to a hundred.
pub open spec fn weights_fit(w: Seq<(Seq<char>, nat)>) -> bool {
    w.len() == 0 || weight_sum(w) == 100
}

/// Routing that can be used is handed back; else what its shares come to.
pub fn reload_routing(routing: RoutingConfig) -> (r: Result<RoutingConfig, u128>)
    ensures
        match r {
            Ok(c) => weights_fit(weighed(routing.weights@)) && c == routing,
            Err(sum) => !weights_fit(weighed(routing.weights@)) && sum == weight_sum(
                weighed(routing.weights@),
            ),
        },
{
    if routing.weights.len() > 0 {
        let sum: u128 = sum_weights(&routing.weights);
        if sum != 100 {
            return Err(sum);
        }
    }
    Ok(routing)
}

/// What is said of routing that cannot be used; `weights` shows the shares.
pub fn describe_bad_weights(sum: u128, weights: &str) -> (r: String)
    ensures
        r@ == "routing.weights must sum to 100, got "@ + text::dec(sum as nat) + " (weights: "@
            + weights@ + ")"@,
{
    let mut r = "routing.weights must sum to 100, got ".to_owned();
    let n = decimal(sum);
    r.push_str(n.as_str());
    r.push_str(" (weights: ");
    r.push_str(weights);
    r.push_str(")");
    r
}

// ---------------------------------------------------------------------------
// Shares
// ---------------------------------------------------------------------------

/// The label at a point of the scale on which the shares stand one after the
/// other.
pub open spec fn label_at(w: Seq<(Seq<char>, nat)>, n: int) -> Option<Seq<char>>
    decreases w.len(),
{
    if w.len() == 0 {
        None
    } else if n < w[0].1 {
        Some(w[0].0)
    } else {
        label_at(w.skip(1), n - w[0].1)
    }
}

/// The shares in the order of their labels.
pub open spec fn scale(w: Seq<(String, u32)>) -> Seq<(Seq<char>, nat)> {
    order::sorted(weighed(w))
}

/// Puts a share behind all whose labels do not come after its own.
fn insert_weight(v: &mut Vec<(String, u32)>, x: (String, u32))
    ensures
        weighed(final(v)@) == order::inserted(weighed(old(v)@), (x.0@, x.1 as nat)),
{
    let ghost s = v@;
    let ghost k = weighed(s);
    let ghost y = (x.0@, x.1 as nat);
    let mut at: usize = v.len();
    proof {
        assert(k.take(at as int) =~= k);
        assert(k.skip(at as int) =~= Seq::empty());
        assert(order::inserted(k, y) =~= order::inserted(k.take(at as int), y) + k.skip(at as int));
    }
    while at > 0 && str_before(x.0.as_str(), v[at - 1].0.as_str())
        invariant
            0 <= at <= v@.len(),
            v@ == s,
            k == weighed(s),
            y == (x.0@, x.1 as nat),
            order::inserted(k, y) == order::inserted(k.take(at as int), y) + k.skip(at as int),
        decreases at,
    {
        proof {
            let t = k.take(at as int);
            assert(t.drop_last() =~= k.take(at - 1));
            assert(t.last() == k[at - 1]);
            assert(order::inserted(t, y) == order::inserted(t.drop_last(), y).push(t.last()));
            assert(order::inserted(k.take(at - 1), y).push(k[at - 1]) + k.skip(at as int)
                =~= order::inserted(k.take(at - 1), y) + k.skip(at - 1));
        }
        at -= 1;
    }
    proof {
        let t = k.take(at as int);
        if at > 0 {
            assert(t.last() == k[at - 1]);
        }
        assert(order::inserted(t, y) == t.push(y));
    }
    v.insert(at, x);
    proof {
        assert(weighed(v@) =~= k.take(at as int).push(y) + k.skip(at as int));
    }
}

/// The label whose share covers a number below a hundred, the shares standing
/// in the order of their labels.
pub fn resolve_label_by_weight(weights: &Vec<(String, u32)>, n: u32) -> (r: Option<String>)
    ensures
        (match r {
            Some(l) => Some(l@),
            None => None::<Seq<char>>,
        }) == label_at(scale(weights@), n as int),
{
    let mut sorted: Vec<(String, u32)> = Vec::new();
    let ghost all = weighed(weights@);
    let mut i: usize = 0;
    proof {
        assert(weighed(sorted@) =~= order::sorted(all.take(0)));
    }
    while i < weights.len()
        invariant
            0 <= i <= weights@.len(),
            all == weighed(weights@),
            weighed(sorted@) == order::sorted(all.take(i as int)),
        decreases weights@.len() - i,
    {
        proof {
            assert(all.take(i + 1).drop_last() =~= all.take(i as int));
            assert(all.take(i + 1).last() == all[i as int]);
        }
        insert_weight(&mut sorted, (weights[i].0.clone(), weights[i].1));
        i += 1;
    }
    proof {
        assert(all.take(i as int) =~= all);
    }
    let ghost s = weighed(sorted@);
    let mut left: u32 = n;
    let mut j: usize = 0;
    proof {
        assert(s.skip(0) =~= s);
    }
    while j < sorted.len()
        invariant
            0 <= j <= sorted@.len(),
            s == weighed(sorted@),
            s == scale(weights@),
            label_at(s, n as int) == label_at(s.skip(j as int), left as int),
        decreases sorted@.len() - j,
    {
        proof {
            assert(s.skip(j as int)[0] == s[j as int]);
            assert(s.skip(j as int).skip(1) =~= s.skip(j + 1));
        }
        if left < sorted[j].1 {
            return Some(sorted[j].0.clone());
        }
        left = left - sorted[j].1;
        j += 1;
    }
    None
}

/// A number is covered by a share if and only if it is below what the shares
/// come to; so shares that come to a hundred leave no sender out.
pub proof fn law_shares_cover_the_scale(w: Seq<(Seq<char>, nat)>, n: int)
    requires
        0 <= n,
    ensures
        label_at(w, n) is Some <==> n < weight_sum(w),
    decreases w.len(),
{
    if w.len() > 0 {
        lemma_sum_from_front(w);
        if n >= w[0].1 {
            law_shares_cover_the_scale(w.skip(1), n - w[0].1);
        }
    }
}

proof fn lemma_sum_from_front(w: Seq<(Seq<char>, nat)>)
    requires
        w.len() > 0,
    ensures
        weight_sum(w) == w[0].1 + weight_sum(w.skip(1)),
    decreases w.len(),
{
    if w.len() == 1 {
        assert(w.drop_last() =~= Seq::empty());
        assert(w.skip(1) =~= Seq::empty());
    } else {
        lemma_sum_from_front(w.drop_last());
        assert(w.drop_last().skip(1) =~= w.skip(1).drop_last());
        assert(w.skip(1).last() == w.last());
    }
}

/// Each share covers as many numbers as it is large, one after the other: the
/// label of the share at `i` is found from where the shares before it end.
pub proof fn law_share_is_as_large_as_its_weight(w: Seq<(Seq<char>, nat)>, i: int, n: int)
    requires
        0 <= i < w.len(),
        weight_sum(w.take(i)) <= n < weight_sum(w.take(i)) + w[i].1,
    ensures
        label_at(w, n) == Some(w[i].0),
    decreases i,
{
    if i == 0 {
        assert(w.take(0) =~= Seq::empty());
    } else {
        let t = w.take(i);
        lemma_sum_from_front(t);
        let rest = w.skip(1);
        assert(t.skip(1) =~= rest.take(i - 1));
        assert(rest[i - 1] == w[i]);
        law_share_is_as_large_as_its_weight(rest, i - 1, n - w[0].1);
    }
}

} // verus!
