use vstd::prelude::*;
use crate::text::{chars_of, chars_equal, push_char};

verus! {

// ---------------------------------------------------------------------------
// Timeframes
// ---------------------------------------------------------------------------

/// Number of selectable chart timeframes (1Y, 6M, 3M, 1M, 1W).
pub const TIMEFRAME_COUNT: usize = 5;

/// Label of each timeframe.
pub open spec fn timeframe_label_spec(i: int) -> Seq<char> {
    if i == 0 {
        "1Y"@
    } else if i == 1 {
        "6M"@
    } else if i == 2 {
        "3M"@
    } else if i == 3 {
        "1M"@
    } else {
        "1W"@
    }
}

/// Length of each timeframe in days: 52, 26 and 13 weeks, 30 days, 7 days.
pub open spec fn timeframe_days_spec(i: int) -> i64 {
    if i == 0 {
        364
    } else if i == 1 {
        182
    } else if i == 2 {
        91
    } else if i == 3 {
        30
    } else {
        7
    }
}

pub fn timeframe_label(i: usize) -> (l: &'static str)
    requires
        i < TIMEFRAME_COUNT,
    ensures
        l@ == timeframe_label_spec(i as int),
{
    if i == 0 {
        "1Y"
    } else if i == 1 {
        "6M"
    } else if i == 2 {
        "3M"
    } else if i == 3 {
        "1M"
    } else {
        "1W"
    }
}

pub fn timeframe_days(i: usize) -> (d: i64)
    requires
        i < TIMEFRAME_COUNT,
    ensures
        d == timeframe_days_spec(i as int),
{
    if i == 0 {
        364
    } else if i == 1 {
        182
    } else if i == 2 {
        91
    } else if i == 3 {
        30
    } else {
        7
    }
}

/// The timeframe after `i`, wrapping from the last to the first.
pub open spec fn next_timeframe_index(i: int) -> int {
    (i + 1) % (TIMEFRAME_COUNT as int)
}

/// The timeframe before `i`, wrapping from the first to the last.
pub open spec fn prev_timeframe_index(i: int) -> int {
    (i + TIMEFRAME_COUNT - 1) % (TIMEFRAME_COUNT as int)
}

/// Law: stepping back undoes stepping forward, and the other way round.
pub proof fn lemma_timeframe_prev_undoes_next(i: int)
    requires
        0 <= i < TIMEFRAME_COUNT,
    ensures
        prev_timeframe_index(next_timeframe_index(i)) == i,
        next_timeframe_index(prev_timeframe_index(i)) == i,
{
}

/// Law: five steps forward come back to the same timeframe.
pub proof fn lemma_timeframe_cycle(i: int)
    requires
        0 <= i < TIMEFRAME_COUNT,
    ensures
        next_timeframe_index(
            next_timeframe_index(
                next_timeframe_index(next_timeframe_index(next_timeframe_index(i))),
            ),
        ) == i,
        forall|k: int| 0 <= k < TIMEFRAME_COUNT ==> 0 <= #[trigger] next_timeframe_index(k)
            < TIMEFRAME_COUNT,
{
}

/// One entry of the timeframe legend: the label, in brackets when selected.
pub open spec fn legend_entry(i: int, selected: int) -> Seq<char> {
    if i == selected {
        "["@ + timeframe_label_spec(i) + "]"@
    } else {
        timeframe_label_spec(i)
    }
}

/// The legend of the first `n` timeframes, two spaces apart.
pub open spec fn legend_prefix(n: int, selected: int) -> Seq<char>
    decreases n,
{
    if n <= 0 {
        Seq::empty()
    } else if n == 1 {
        legend_entry(0, selected)
    } else {
        legend_prefix(n - 1, selected) + "  "@ + legend_entry(n - 1, selected)
    }
}

/// The legend in the chart's title: every timeframe label, the selected one
/// in brackets.
pub fn timeframe_legend(selected: usize) -> (legend: String)
    ensures
        legend@ == legend_prefix(TIMEFRAME_COUNT as int, selected as int),
{
    let mut legend = String::new();
    let mut i: usize = 0;
    while i < TIMEFRAME_COUNT
        invariant
            i <= TIMEFRAME_COUNT,
            legend@ == legend_prefix(i as int, selected as int),
        decreases TIMEFRAME_COUNT - i,
    {
        if i > 0 {
            legend.append("  ");
        }
        if i == selected {
            legend.append("[");
            legend.append(timeframe_label(i));
            legend.append("]");
        } else {
            legend.append(timeframe_label(i));
        }
        proof {
            if i == 0 {
                assert(legend@ =~= legend_entry(0, selected as int));
            } else {
                assert(legend@ =~= legend_prefix(i as int, selected as int) + "  "@ + legend_entry(
                    i as int,
                    selected as int,
                ));
            }
        }
        i = i + 1;
    }
    legend
}

// ---------------------------------------------------------------------------
// Association lists keyed by strings
// ---------------------------------------------------------------------------

/// No key occurs twice.
pub open spec fn keys_distinct<V>(s: Seq<(String, V)>) -> bool {
    forall|i: int, j: int| 0 <= i < j < s.len() ==> s[i].0@ != s[j].0@
}

/// The entry's key is `k`.
pub open spec fn has_key<V>(s: Seq<(String, V)>, k: Seq<char>) -> bool {
    exists|i: int| 0 <= i < s.len() && #[trigger] s[i].0@ == k
}

/// The list read as a map from key to value.
pub open spec fn assoc_map<V>(s: Seq<(String, V)>) -> Map<Seq<char>, V> {
    Map::new(
        |k: Seq<char>| has_key(s, k),
        |k: Seq<char>| s[choose|i: int| 0 <= i < s.len() && #[trigger] s[i].0@ == k].1,
    )
}

proof fn lemma_assoc_map_at<V>(s: Seq<(String, V)>, i: int)
    requires
        keys_distinct(s),
        0 <= i < s.len(),
    ensures
        assoc_map(s).dom().contains(s[i].0@),
        assoc_map(s)[s[i].0@] == s[i].1,
{
    let k = s[i].0@;
    assert(has_key(s, k));
    let j = choose|j: int| 0 <= j < s.len() && #[trigger] s[j].0@ == k;
    assert(j == i);
}

proof fn lemma_assoc_map_push<V>(s: Seq<(String, V)>, key: String, v: V)
    requires
        keys_distinct(s),
        !has_key(s, key@),
    ensures
        keys_distinct(s.push((key, v))),
        assoc_map(s.push((key, v))) == assoc_map(s).insert(key@, v),
{
    let t = s.push((key, v));
    assert(t[s.len() as int] == (key, v));
    assert forall|i: int, j: int| 0 <= i < j < t.len() implies t[i].0@ != t[j].0@ by {
        if j == s.len() {
            assert(t[i] == s[i]);
        } else {
            assert(t[i] == s[i]);
            assert(t[j] == s[j]);
        }
    }
    assert forall|k: Seq<char>| has_key(t, k) == (has_key(s, k) || k == key@) by {
        if has_key(s, k) {
            let i = choose|i: int| 0 <= i < s.len() && #[trigger] s[i].0@ == k;
            assert(t[i] == s[i]);
        }
        if has_key(t, k) && k != key@ {
            let i = choose|i: int| 0 <= i < t.len() && #[trigger] t[i].0@ == k;
            assert(t[i] == s[i]);
        }
        if k == key@ {
            assert(t[s.len() as int].0@ == k);
        }
    }
    assert forall|k: Seq<char>| #[trigger] assoc_map(t).dom().contains(k) implies assoc_map(t)[k]
        == assoc_map(s).insert(key@, v)[k] by {
        if k == key@ {
            lemma_assoc_map_at(t, s.len() as int);
        } else {
            let i = choose|i: int| 0 <= i < s.len() && #[trigger] s[i].0@ == k;
            assert(t[i] == s[i]);
            lemma_assoc_map_at(t, i);
            lemma_assoc_map_at(s, i);
        }
    }
    assert(assoc_map(t) =~= assoc_map(s).insert(key@, v));
}

proof fn lemma_assoc_map_remove<V>(s: Seq<(String, V)>, idx: int)
    requires
        keys_distinct(s),
        0 <= idx < s.len(),
    ensures
        keys_distinct(s.remove(idx)),
        assoc_map(s.remove(idx)) == assoc_map(s).remove(s[idx].0@),
{
    let t = s.remove(idx);
    let key = s[idx].0@;
    assert forall|i: int, j: int| 0 <= i < j < t.len() implies t[i].0@ != t[j].0@ by {
        let si = if i < idx { i } else { i + 1 };
        let sj = if j < idx { j } else { j + 1 };
        assert(t[i] == s[si]);
        assert(t[j] == s[sj]);
    }
    assert forall|k: Seq<char>| has_key(t, k) == (has_key(s, k) && k != key) by {
        if has_key(t, k) {
            let i = choose|i: int| 0 <= i < t.len() && #[trigger] t[i].0@ == k;
            let si = if i < idx { i } else { i + 1 };
            assert(t[i] == s[si]);
        }
        if has_key(s, k) && k != key {
            let i = choose|i: int| 0 <= i < s.len() && #[trigger] s[i].0@ == k;
            assert(i != idx);
            let ti = if i < idx { i } else { i - 1 };
            assert(t[ti] == s[i]);
        }
    }
    assert forall|k: Seq<char>| #[trigger] assoc_map(t).dom().contains(k) implies assoc_map(t)[k]
        == assoc_map(s).remove(key)[k] by {
        let i = choose|i: int| 0 <= i < s.len() && #[trigger] s[i].0@ == k;
        assert(i != idx);
        let ti = if i < idx { i } else { i - 1 };
        assert(t[ti] == s[i]);
        lemma_assoc_map_at(t, ti);
        lemma_assoc_map_at(s, i);
    }
    assert(assoc_map(t) =~= assoc_map(s).remove(key));
}

/// Position of `key` in the list, if present.
fn assoc_find<V>(s: &Vec<(String, V)>, key: &Vec<char>) -> (r: Option<usize>)
    requires
        keys_distinct(s@),
    ensures
        r is None <==> !has_key(s@, key@),
        r matches Some(i) ==> i < s@.len() && s@[i as int].0@ == key@,
{
    let mut i: usize = 0;
    while i < s.len()
        invariant
            i <= s.len(),
            forall|j: int| 0 <= j < i ==> s@[j].0@ != key@,
        decreases s.len() - i,
    {
        let k = chars_of(s[i].0.as_str());
        if chars_equal(&k, key) {
            return Some(i);
        }
        i = i + 1;
    }
    None
}

// ---------------------------------------------------------------------------
// Chart state
// ---------------------------------------------------------------------------

/// The cache key of a stock: `market:code`.
pub open spec fn cache_key_spec(market: Seq<char>, stock_code: Seq<char>) -> Seq<char> {
    market.push(':') + stock_code
}

pub fn cache_key(market: &str, stock_code: &str) -> (k: String)
    ensures
        k@ == cache_key_spec(market@, stock_code@),
{
    let m = chars_of(market);
    let c = chars_of(stock_code);
    let mut k = String::new();
    let mut i: usize = 0;
    while i < m.len()
        invariant
            i <= m.len(),
            k@ == m@.take(i as int),
        decreases m.len() - i,
    {
        push_char(&mut k, m[i]);
        assert(m@.take(i + 1) =~= m@.take(i as int).push(m@[i as int]));
        i = i + 1;
    }
    assert(m@.take(m.len() as int) =~= m@);
    push_char(&mut k, ':');
    let mut j: usize = 0;
    while j < c.len()
        invariant
            j <= c.len(),
            k@ == m@.push(':') + c@.take(j as int),
        decreases c.len() - j,
    {
        push_char(&mut k, c[j]);
        assert(c@.take(j + 1) =~= c@.take(j as int).push(c@[j as int]));
        j = j + 1;
    }
    assert(c@.take(c.len() as int) =~= c@);
    assert(k@ =~= market@.push(':') + stock_code@);
    k
}

/// What a poll of a pending history fetch reported.
pub enum FetchPoll<H> {
    /// The fetch delivered the history.
    Ready(H),
    /// The fetch failed with this message.
    Failed(String),
    /// The fetch is still running.
    Pending,
    /// The fetch task ended without reporting.
    Disconnected,
}

/// What `prepare_history` did, and what the caller must do next.
#[derive(Debug, Clone, Copy, PartialEq, Eq, Structural)]
pub enum PrepareStep {
    /// The history was already cached.
    Cached,
    /// The pending fetch just delivered the history; it is cached now.
    Fetched,
    /// The pending fetch just failed; the error is recorded.
    FetchFailed,
    /// The fetch is still running.
    Waiting,
    /// An earlier failure is shown for this stock; no new fetch is started.
    Blocked,
    /// No fetch exists: the caller starts one and hands its receiver to `begin_fetch`.
    StartFetch,
}

/// What the chart panel shows.
pub enum ChartPanel<'a, H> {
    /// No stock is selected.
    NoStock,
    /// The stock's cached history.
    History(&'a H),
    /// The error recorded for the focused stock.
    Failed(&'a str),
    /// The history is still being fetched.
    Loading,
}

/// Tracks chart state and caches per-stock historical data (`H`), together
/// with the receivers (`R`) of fetches still running.
pub struct ChartState<H, R> {
    pub show: bool,
    pub timeframe_index: usize,
    active_key: Option<String>,
    history_cache: Vec<(String, H)>,
    pending_fetches: Vec<(String, R)>,
    last_error: Option<String>,
}

/// Two chart states agree on everything the chart shows and caches.
pub open spec fn same_chart<H, R>(a: ChartState<H, R>, b: ChartState<H, R>) -> bool {
    &&& a.shown() == b.shown()
    &&& a.timeframe() == b.timeframe()
    &&& a.active() == b.active()
    &&& a.error() == b.error()
    &&& a.cache() == b.cache()
    &&& a.pending() == b.pending()
}

/// The message recorded when a fetch task ends without reporting.
pub open spec fn disconnected_message() -> Seq<char> {
    "History fetch task ended unexpectedly"@
}

/// What `prepare_history` does to the chart state `before` when focusing the
/// stock with cache key `key`, given what polling its pending fetch reported.
pub open spec fn history_prepared<H, R>(
    before: ChartState<H, R>,
    key: Seq<char>,
    poll: Option<FetchPoll<H>>,
    after: ChartState<H, R>,
    step: PrepareStep,
) -> bool {
    let err0 = if before.active() == Some(key) {
        before.error()
    } else {
        None
    };
    &&& after.shown() == before.shown()
    &&& after.timeframe() == before.timeframe()
    &&& after.active() == Some(key)
    &&& if before.cache().dom().contains(key) {
        &&& step == PrepareStep::Cached
        &&& after.cache() == before.cache()
        &&& after.pending() == before.pending()
        &&& after.error() == err0
    } else if before.pending().dom().contains(key) {
        match poll {
            Some(FetchPoll::Ready(h)) => {
                &&& step == PrepareStep::Fetched
                &&& after.cache() == before.cache().insert(key, h)
                &&& after.pending() == before.pending().remove(key)
                &&& after.error() is None
            },
            Some(FetchPoll::Failed(msg)) => {
                &&& step == PrepareStep::FetchFailed
                &&& after.cache() == before.cache()
                &&& after.pending() == before.pending().remove(key)
                &&& after.error() == Some(msg@)
            },
            Some(FetchPoll::Disconnected) => {
                &&& step == PrepareStep::FetchFailed
                &&& after.cache() == before.cache()
                &&& after.pending() == before.pending().remove(key)
                &&& after.error() == Some(disconnected_message())
            },
            _ => {
                &&& step == PrepareStep::Waiting
                &&& after.cache() == before.cache()
                &&& after.pending() == before.pending()
                &&& after.error() == err0
            },
        }
    } else {
        &&& after.cache() == before.cache()
        &&& after.pending() == before.pending()
        &&& after.error() == err0
        &&& step == (if err0 is Some {
            PrepareStep::Blocked
        } else {
            PrepareStep::StartFetch
        })
    }
}

/// What `begin_fetch` does to `before` when the caller started a fetch for the
/// stock with cache key `key` and hands over its `receiver`.
pub open spec fn fetch_begun<H, R>(
    before: ChartState<H, R>,
    key: Seq<char>,
    receiver: R,
    after: ChartState<H, R>,
) -> bool {
    &&& after.shown() == before.shown()
    &&& after.timeframe() == before.timeframe()
    &&& after.active() == before.active()
    &&& after.cache() == before.cache()
    &&& after.pending() == before.pending().insert(key, receiver)
    &&& after.error() is None
}

/// Law: a history that a fetch delivered is cached under its key, and every
/// later preparation of that stock answers from the cache, whatever the poll.
pub proof fn lemma_delivered_history_is_kept<H, R>(
    s0: ChartState<H, R>,
    s1: ChartState<H, R>,
    s2: ChartState<H, R>,
    key: Seq<char>,
    h: H,
    poll: Option<FetchPoll<H>>,
    step1: PrepareStep,
    step2: PrepareStep,
)
    requires
        history_prepared(s0, key, Some(FetchPoll::Ready(h)), s1, step1),
        step1 == PrepareStep::Fetched,
        history_prepared(s1, key, poll, s2, step2),
    ensures
        s1.cache().dom().contains(key),
        s1.cache()[key] == h,
        step2 == PrepareStep::Cached,
        s2.cache() == s1.cache(),
        s2.pending() == s1.pending(),
{
}

/// Law: after a fetch failed, preparing the same stock again (while it stays
/// focused) starts no new fetch and keeps showing the failure.
pub proof fn lemma_failed_fetch_not_retried<H, R>(
    s0: ChartState<H, R>,
    s1: ChartState<H, R>,
    s2: ChartState<H, R>,
    key: Seq<char>,
    poll1: Option<FetchPoll<H>>,
    poll2: Option<FetchPoll<H>>,
    step2: PrepareStep,
)
    requires
        history_prepared(s0, key, poll1, s1, PrepareStep::FetchFailed),
        history_prepared(s1, key, poll2, s2, step2),
    ensures
        s1.error() is Some,
        step2 == PrepareStep::Blocked,
        s2.error() == s1.error(),
        s2.cache() == s1.cache(),
        s2.pending() == s1.pending(),
{
}

/// Law: a stock that has a running fetch and no cached history waits for it
/// while the poll reports nothing, leaving cache and fetches unchanged.
pub proof fn lemma_started_fetch_waits<H, R>(
    s0: ChartState<H, R>,
    s1: ChartState<H, R>,
    s2: ChartState<H, R>,
    key: Seq<char>,
    receiver: R,
    step: PrepareStep,
)
    requires
        !s0.cache().dom().contains(key),
        fetch_begun(s0, key, receiver, s1),
        history_prepared(s1, key, Some(FetchPoll::Pending), s2, step),
    ensures
        step == PrepareStep::Waiting,
        s2.pending() == s1.pending(),
        s2.pending()[key] == receiver,
        s2.error() is None,
{
}

/// Law: focusing another stock forgets the error recorded for the previous one.
pub proof fn lemma_focus_change_clears_error<H, R>(
    s0: ChartState<H, R>,
    s1: ChartState<H, R>,
    key: Seq<char>,
    poll: Option<FetchPoll<H>>,
    step: PrepareStep,
)
    requires
        s0.active() != Some(key),
        history_prepared(s0, key, poll, s1, step),
        step != PrepareStep::FetchFailed,
    ensures
        s1.error() is None,
        step != PrepareStep::Blocked,
{
}

impl<H, R> ChartState<H, R> {
    /// Both lists hold each key at most once.
    pub closed spec fn wf(&self) -> bool {
        keys_distinct(self.history_cache@) && keys_distinct(self.pending_fetches@)
    }

    /// Whether the chart panel is shown.
    pub closed spec fn shown(&self) -> bool {
        self.show
    }

    /// Index of the selected timeframe.
    pub closed spec fn timeframe(&self) -> int {
        self.timeframe_index as int
    }

    /// Cached histories by key.
    pub closed spec fn cache(&self) -> Map<Seq<char>, H> {
        assoc_map(self.history_cache@)
    }

    /// Receivers of running fetches by key.
    pub closed spec fn pending(&self) -> Map<Seq<char>, R> {
        assoc_map(self.pending_fetches@)
    }

    /// Key of the stock the chart currently focuses.
    pub closed spec fn active(&self) -> Option<Seq<char>> {
        match self.active_key {
            Some(k) => Some(k@),
            None => None,
        }
    }

    /// Last fetch error recorded for the active stock.
    pub closed spec fn error(&self) -> Option<Seq<char>> {
        match self.last_error {
            Some(e) => Some(e@),
            None => None,
        }
    }

    /// A hidden chart on the first timeframe, with nothing cached or running.
    pub fn new() -> (s: Self)
        ensures
            s.wf(),
            !s.shown(),
            s.timeframe() == 0,
            s.active() is None,
            s.error() is None,
            s.cache() == Map::<Seq<char>, H>::empty(),
            s.pending() == Map::<Seq<char>, R>::empty(),
    {
        let s = ChartState {
            show: false,
            timeframe_index: 0,
            active_key: None,
            history_cache: Vec::new(),
            pending_fetches: Vec::new(),
            last_error: None,
        };
        assert(s.cache() =~= Map::<Seq<char>, H>::empty());
        assert(s.pending() =~= Map::<Seq<char>, R>::empty());
        s
    }

    /// Whether the chart panel is shown.
    pub fn is_shown(&self) -> (r: bool)
        ensures
            r == self.shown(),
    {
        self.show
    }

    /// Index of the selected timeframe.
    pub fn timeframe_index(&self) -> (r: usize)
        ensures
            r == self.timeframe(),
    {
        self.timeframe_index
    }

    /// Show the chart panel on the first timeframe.
    pub fn show_panel(&mut self)
        requires
            old(self).wf(),
        ensures
            final(self).wf(),
            final(self).shown(),
            final(self).timeframe() == 0,
            final(self).active() == old(self).active(),
            final(self).error() == old(self).error(),
            final(self).cache() == old(self).cache(),
            final(self).pending() == old(self).pending(),
    {
        self.show = true;
        self.timeframe_index = 0;
    }

    /// Focus the chart on a stock and advance its history: use the cache, take
    /// the result of the pending fetch (`poll`, what polling its receiver
    /// reported, `None` when it was not polled), keep a recorded failure, or
    /// ask the caller to start a fetch.
    pub fn prepare_history(&mut self, market: &str, stock_code: &str, poll: Option<FetchPoll<H>>) -> (step:
        PrepareStep)
        requires
            old(self).wf(),
        ensures
            final(self).wf(),
            history_prepared(*old(self), cache_key_spec(market@, stock_code@), poll, *final(self), step),
    {
        let key = cache_key(market, stock_code);
        let key_chars = chars_of(key.as_str());
        let same = match &self.active_key {
            Some(k) => *k == key,
            None => false,
        };
        if !same {
            self.active_key = Some(key.clone());
            self.last_error = None;
        }
        if assoc_find(&self.history_cache, &key_chars).is_some() {
            return PrepareStep::Cached;
        }
        match assoc_find(&self.pending_fetches, &key_chars) {
            Some(idx) => {
                match poll {
                    Some(FetchPoll::Ready(history)) => {
                        proof {
                            lemma_assoc_map_push(self.history_cache@, key, history);
                            lemma_assoc_map_remove(self.pending_fetches@, idx as int);
                        }
                        self.history_cache.push((key, history));
                        self.pending_fetches.remove(idx);
                        self.last_error = None;
                        PrepareStep::Fetched
                    },
                    Some(FetchPoll::Failed(msg)) => {
                        proof {
                            lemma_assoc_map_remove(self.pending_fetches@, idx as int);
                        }
                        self.pending_fetches.remove(idx);
                        self.last_error = Some(msg);
                        PrepareStep::FetchFailed
                    },
                    Some(FetchPoll::Disconnected) => {
                        proof {
                            lemma_assoc_map_remove(self.pending_fetches@, idx as int);
                        }
                        self.pending_fetches.remove(idx);
                        self.last_error = Some(
                            String::from_str("History fetch task ended unexpectedly"),
                        );
                        PrepareStep::FetchFailed
                    },
                    _ => PrepareStep::Waiting,
                }
            },
            None => {
                if self.last_error.is_some() {
                    PrepareStep::Blocked
                } else {
                    PrepareStep::StartFetch
                }
            },
        }
    }

    /// Record a fetch the caller started for a stock: its receiver replaces
    /// any earlier one, and the error is cleared.
    pub fn begin_fetch(&mut self, market: &str, stock_code: &str, receiver: R)
        requires
            old(self).wf(),
        ensures
            final(self).wf(),
            fetch_begun(*old(self), cache_key_spec(market@, stock_code@), receiver, *final(self)),
    {
        let key = cache_key(market, stock_code);
        let key_chars = chars_of(key.as_str());
        match assoc_find(&self.pending_fetches, &key_chars) {
            Some(idx) => {
                proof {
                    lemma_assoc_map_remove(self.pending_fetches@, idx as int);
                    let t = self.pending_fetches@.remove(idx as int);
                    assert(!has_key(t, key@)) by {
                        if has_key(t, key@) {
                            assert(assoc_map(t).dom().contains(key@));
                        }
                    }
                    lemma_assoc_map_push(t, key, receiver);
                    assert(assoc_map(self.pending_fetches@).remove(key@).insert(key@, receiver)
                        =~= assoc_map(self.pending_fetches@).insert(key@, receiver));
                }
                self.pending_fetches.remove(idx);
                self.pending_fetches.push((key, receiver));
            },
            None => {
                proof {
                    lemma_assoc_map_push(self.pending_fetches@, key, receiver);
                }
                self.pending_fetches.push((key, receiver));
            },
        }
        self.last_error = None;
    }

    /// The receiver of the running fetch for a stock, for the caller to poll.
    pub fn pending_receiver(&self, market: &str, stock_code: &str) -> (r: Option<&R>)
        requires
            self.wf(),
        ensures
            r is Some <==> self.pending().dom().contains(cache_key_spec(market@, stock_code@)),
            r matches Some(rx) ==> *rx == self.pending()[cache_key_spec(market@, stock_code@)],
    {
        let key = cache_key(market, stock_code);
        let key_chars = chars_of(key.as_str());
        match assoc_find(&self.pending_fetches, &key_chars) {
            Some(idx) => {
                proof {
                    lemma_assoc_map_at(self.pending_fetches@, idx as int);
                }
                Some(&self.pending_fetches[idx].1)
            },
            None => None,
        }
    }

    /// The cached history of a stock.
    pub fn history_for(&self, market: &str, stock_code: &str) -> (r: Option<&H>)
        requires
            self.wf(),
        ensures
            r is Some <==> self.cache().dom().contains(cache_key_spec(market@, stock_code@)),
            r matches Some(h) ==> *h == self.cache()[cache_key_spec(market@, stock_code@)],
    {
        let key = cache_key(market, stock_code);
        let key_chars = chars_of(key.as_str());
        match assoc_find(&self.history_cache, &key_chars) {
            Some(idx) => {
                proof {
                    lemma_assoc_map_at(self.history_cache@, idx as int);
                }
                Some(&self.history_cache[idx].1)
            },
            None => None,
        }
    }

    /// What the panel shows for the selected stock (`(market, code)`, if
    /// any): its cached history, else the error recorded while it is
    /// focused, else that it is loading.
    pub fn panel<'a>(&'a self, stock: Option<(&str, &str)>) -> (p: ChartPanel<'a, H>)
        requires
            self.wf(),
        ensures
            match stock {
                None => p is NoStock,
                Some((market, stock_code)) => {
                    let key = cache_key_spec(market@, stock_code@);
                    if self.cache().dom().contains(key) {
                        p matches ChartPanel::History(h) && *h == self.cache()[key]
                    } else if self.active() == Some(key) && self.error() is Some {
                        p matches ChartPanel::Failed(e) && self.error() == Some(e@)
                    } else {
                        p is Loading
                    }
                },
            },
    {
        match stock {
            None => ChartPanel::NoStock,
            Some((market, stock_code)) => match self.history_for(market, stock_code) {
                Some(h) => ChartPanel::History(h),
                None => match self.last_error(market, stock_code) {
                    Some(e) => ChartPanel::Failed(e),
                    None => ChartPanel::Loading,
                },
            },
        }
    }

    /// Hide the chart and forget its focus and error.
    pub fn hide_chart(&mut self)
        requires
            old(self).wf(),
        ensures
            final(self).wf(),
            !final(self).shown(),
            final(self).timeframe() == old(self).timeframe(),
            final(self).active() is None,
            final(self).error() is None,
            final(self).cache() == old(self).cache(),
            final(self).pending() == old(self).pending(),
    {
        self.show = false;
        self.last_error = None;
        self.active_key = None;
    }

    /// Forget the chart's focus and error, keeping it shown or hidden.
    pub fn clear_active(&mut self)
        requires
            old(self).wf(),
        ensures
            final(self).wf(),
            final(self).shown() == old(self).shown(),
            final(self).timeframe() == old(self).timeframe(),
            final(self).active() is None,
            final(self).error() is None,
            final(self).cache() == old(self).cache(),
            final(self).pending() == old(self).pending(),
    {
        self.active_key = None;
        self.last_error = None;
    }

    /// Switch to the next timeframe, wrapping around.
    pub fn next_timeframe(&mut self)
        requires
            old(self).wf(),
            old(self).timeframe() < usize::MAX,
        ensures
            final(self).wf(),
            final(self).timeframe() == next_timeframe_index(old(self).timeframe()),
            final(self).shown() == old(self).shown(),
            final(self).active() == old(self).active(),
            final(self).error() == old(self).error(),
            final(self).cache() == old(self).cache(),
            final(self).pending() == old(self).pending(),
    {
        self.timeframe_index = (self.timeframe_index + 1) % TIMEFRAME_COUNT;
    }

    /// Switch to the previous timeframe, wrapping around.
    pub fn prev_timeframe(&mut self)
        requires
            old(self).wf(),
            old(self).timeframe() <= usize::MAX - TIMEFRAME_COUNT,
        ensures
            final(self).wf(),
            final(self).timeframe() == prev_timeframe_index(old(self).timeframe()),
            final(self).shown() == old(self).shown(),
            final(self).active() == old(self).active(),
            final(self).error() == old(self).error(),
            final(self).cache() == old(self).cache(),
            final(self).pending() == old(self).pending(),
    {
        self.timeframe_index = (self.timeframe_index + TIMEFRAME_COUNT - 1) % TIMEFRAME_COUNT;
    }

    /// The error recorded for a stock, shown only while it is the focused one.
    pub fn last_error(&self, market: &str, stock_code: &str) -> (r: Option<&str>)
        ensures
            self.active() == Some(cache_key_spec(market@, stock_code@)) ==> match r {
                Some(e) => self.error() == Some(e@),
                None => self.error() is None,
            },
            self.active() != Some(cache_key_spec(market@, stock_code@)) ==> r is None,
    {
        let key = cache_key(market, stock_code);
        let same = match &self.active_key {
            Some(k) => *k == key,
            None => false,
        };
        if same {
            match &self.last_error {
                Some(e) => Some(e.as_str()),
                None => None,
            }
        } else {
            None
        }
    }
}

impl<H, R> Default for ChartState<H, R> {
    /// A hidden chart on the first timeframe, with nothing cached or running.
    fn default() -> (s: Self)
        ensures
            s.wf(),
            !s.shown(),
            s.timeframe() == 0,
            s.active() is None,
            s.error() is None,
            s.cache() == Map::<Seq<char>, H>::empty(),
            s.pending() == Map::<Seq<char>, R>::empty(),
    {
        ChartState::new()
    }
}

} // verus!

verus! {

/// Law: the timeframes, in order, are one year (52 weeks), six months (26
/// weeks), three months (13 weeks), one month (30 days) and one week.
pub proof fn lemma_timeframe_spans()
    ensures
        timeframe_label_spec(0) == "1Y"@ && timeframe_days_spec(0) == 52 * 7,
        timeframe_label_spec(1) == "6M"@ && timeframe_days_spec(1) == 26 * 7,
        timeframe_label_spec(2) == "3M"@ && timeframe_days_spec(2) == 13 * 7,
        timeframe_label_spec(3) == "1M"@ && timeframe_days_spec(3) == 30,
        timeframe_label_spec(4) == "1W"@ && timeframe_days_spec(4) == 7,
        forall|i: int, j: int| 0 <= i < j < TIMEFRAME_COUNT ==> timeframe_days_spec(i) > timeframe_days_spec(j),
{
}

/// Law: the cache key is the market, a colon, then the stock code, so two
/// stocks share a key only when market and code are both equal (neither
/// holding a colon).
pub proof fn lemma_cache_key_shape(market: Seq<char>, stock_code: Seq<char>)
    ensures
        cache_key_spec(market, stock_code).len() == market.len() + 1 + stock_code.len(),
        cache_key_spec(market, stock_code).take(market.len() as int) == market,
        cache_key_spec(market, stock_code)[market.len() as int] == ':',
        cache_key_spec(market, stock_code).skip(market.len() as int + 1) == stock_code,
{
    let k = cache_key_spec(market, stock_code);
    assert(k.take(market.len() as int) =~= market);
    assert(k.skip(market.len() as int + 1) =~= stock_code);
}

/// Law: moving to the next timeframe goes one step right, from the last
/// back to the first; the previous one step left, from the first to the last.
pub proof fn lemma_timeframe_steps(i: int)
    requires
        0 <= i < TIMEFRAME_COUNT,
    ensures
        i + 1 < TIMEFRAME_COUNT ==> next_timeframe_index(i) == i + 1,
        i + 1 == TIMEFRAME_COUNT ==> next_timeframe_index(i) == 0,
        i > 0 ==> prev_timeframe_index(i) == i - 1,
        i == 0 ==> prev_timeframe_index(i) == TIMEFRAME_COUNT - 1,
{
}

} // verus!

verus! {

/// Law: the legend lists the five timeframe labels two spaces apart, the
/// selected one in brackets; a fetch task that ends without reporting is
/// shown as such.
pub proof fn lemma_legend_entries(i: int, selected: int)
    ensures
        i == selected ==> legend_entry(i, selected) == "["@ + timeframe_label_spec(i) + "]"@,
        i != selected ==> legend_entry(i, selected) == timeframe_label_spec(i),
        legend_prefix(1, selected) == legend_entry(0, selected),
        forall|n: int| 1 < n ==> #[trigger] legend_prefix(n, selected) == legend_prefix(n - 1, selected) + "  "@
            + legend_entry(n - 1, selected),
        disconnected_message() == "History fetch task ended unexpectedly"@,
{
}

} // verus!
