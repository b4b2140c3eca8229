use crate::cache::{begin_action, lemma_clear_forces_fetch, TokenCache};
use crate::error::{CredentialError, ErrorKind};
use crate::keyed::scopes_view;
use vstd::prelude::*;

verus! {

/// `parts` joined with `sep` between each two of them.
pub open spec fn join(parts: Seq<Seq<char>>, sep: Seq<char>) -> Seq<char>
    decreases parts.len(),
{
    if parts.len() == 0 {
        Seq::empty()
    } else if parts.len() == 1 {
        parts[0]
    } else {
        join(parts.drop_last(), sep) + sep + parts.last()
    }
}

/// Where part `i` starts in `join(parts, sep)`.
pub open spec fn join_offset(parts: Seq<Seq<char>>, sep_len: int, i: int) -> int
    decreases i,
{
    if i <= 0 {
        0
    } else {
        join_offset(parts, sep_len, i - 1) + parts[i - 1].len() + sep_len
    }
}

/// One failure rendered with its whole cause chain, outermost first.
pub open spec fn render_causes(causes: Seq<Seq<char>>) -> Seq<char> {
    join(causes, " - "@)
}

/// Each failure rendered with its cause chain.
pub open spec fn rendered_failures(failures: Seq<Seq<Seq<char>>>) -> Seq<Seq<char>> {
    failures.map_values(|c: Seq<Seq<char>>| render_causes(c))
}

/// The failures of a search, one line each, in source order.
pub open spec fn aggregate_text(failures: Seq<Seq<Seq<char>>>) -> Seq<char> {
    join(rendered_failures(failures), "\n"@)
}

pub open spec fn aggregate_header() -> Seq<char> {
    "Multiple errors were encountered while attempting to authenticate:\n"@
}

/// The message of the error that ends a search in which every source failed.
pub open spec fn aggregate_message(failures: Seq<Seq<Seq<char>>>) -> Seq<char> {
    aggregate_header() + aggregate_text(failures)
}

/// The value of a list of cause chains.
pub open spec fn failures_view(f: Seq<Vec<String>>) -> Seq<Seq<Seq<char>>> {
    f.map_values(|c: Vec<String>| scopes_view(c@))
}

proof fn lemma_join_len(parts: Seq<Seq<char>>, sep: Seq<char>)
    requires
        parts.len() > 0,
    ensures
        join(parts, sep).len() == join_offset(parts, sep.len() as int, parts.len() - 1)
            + parts.last().len(),
    decreases parts.len(),
{
    if parts.len() > 1 {
        let p = parts.drop_last();
        lemma_join_len(p, sep);
        lemma_offset_prefix(parts, p, sep.len() as int, p.len() - 1);
    }
}

proof fn lemma_offset_prefix(parts: Seq<Seq<char>>, p: Seq<Seq<char>>, sep_len: int, i: int)
    requires
        0 <= i <= p.len() <= parts.len(),
        forall|j: int| 0 <= j < p.len() ==> #[trigger] p[j] == parts[j],
    ensures
        join_offset(p, sep_len, i) == join_offset(parts, sep_len, i),
    decreases i,
{
    if i > 0 {
        lemma_offset_prefix(parts, p, sep_len, i - 1);
    }
}

proof fn lemma_offset_nonneg(parts: Seq<Seq<char>>, sep_len: int, i: int)
    requires
        i <= parts.len(),
        sep_len >= 0,
    ensures
        join_offset(parts, sep_len, i) >= 0,
    decreases i,
{
    if i > 0 {
        lemma_offset_nonneg(parts, sep_len, i - 1);
    }
}

proof fn lemma_offset_grows(parts: Seq<Seq<char>>, sep_len: int, i: int, j: int)
    requires
        0 <= i < j <= parts.len(),
        sep_len > 0,
    ensures
        join_offset(parts, sep_len, i) + parts[i].len() < join_offset(parts, sep_len, j),
    decreases j - i,
{
    if j > i + 1 {
        lemma_offset_grows(parts, sep_len, i, j - 1);
    }
}

/// Part `i` stands at `join_offset(parts, |sep|, i)` in `join(parts, sep)`.
pub proof fn lemma_join_piece(parts: Seq<Seq<char>>, sep: Seq<char>, i: int)
    requires
        0 <= i < parts.len(),
    ensures
        join_offset(parts, sep.len() as int, i) + parts[i].len() <= join(parts, sep).len(),
        join(parts, sep).subrange(
            join_offset(parts, sep.len() as int, i),
            join_offset(parts, sep.len() as int, i) + parts[i].len(),
        ) == parts[i],
    decreases parts.len(),
{
    let sl = sep.len() as int;
    if parts.len() == 1 {
        assert(join(parts, sep).subrange(0, parts[0].len() as int) =~= parts[0]);
    } else {
        let p = parts.drop_last();
        let jp = join(p, sep);
        lemma_join_len(p, sep);
        lemma_offset_prefix(parts, p, sl, p.len() - 1);
        if i == parts.len() - 1 {
            lemma_offset_prefix(parts, p, sl, p.len() - 1);
            assert(join_offset(parts, sl, i) == jp.len() + sl);
            assert(join(parts, sep).subrange(jp.len() + sl, jp.len() + sl + parts[i].len())
                =~= parts[i]);
        } else {
            lemma_join_piece(p, sep, i);
            lemma_offset_prefix(parts, p, sl, i);
            let o = join_offset(parts, sl, i);
            lemma_offset_nonneg(parts, sl, i);
            assert(join(parts, sep) == jp + sep + parts.last());
            assert(p[i] == parts[i]);
            assert(o + p[i].len() <= jp.len());
            assert(join(parts, sep).subrange(o, o + parts[i].len()) =~= jp.subrange(
                o,
                o + p[i].len(),
            ));
        }
    }
}

/// Joins `parts` with `sep`.
pub fn join_strings(parts: &Vec<String>, sep: &str) -> (r: String)
    ensures
        r@ == join(scopes_view(parts@), sep@),
{
    let ghost ps = scopes_view(parts@);
    let mut r = String::new();
    let mut i: usize = 0;
    while i < parts.len()
        invariant
            i <= parts.len(),
            ps == scopes_view(parts@),
            r@ == join(ps.subrange(0, i as int), sep@),
        decreases parts.len() - i,
    {
        let ghost prev = ps.subrange(0, i as int);
        let ghost next = ps.subrange(0, i + 1);
        assert(next.drop_last() =~= prev);
        if i > 0 {
            r.append(sep);
        }
        r.append(parts[i].as_str());
        proof {
            if i == 0 {
                assert(r@ =~= next[0]);
            } else {
                assert(next.last() == parts@[i as int]@);
            }
        }
        i = i + 1;
    }
    assert(ps.subrange(0, parts.len() as int) =~= ps);
    r
}

/// Renders each failure with its cause chain joined by " - ", one failure per
/// line, in the order given.
pub fn format_aggregate_error(errors: &Vec<Vec<String>>) -> (r: String)
    ensures
        r@ == aggregate_text(failures_view(errors@)),
{
    let mut lines: Vec<String> = Vec::new();
    let mut i: usize = 0;
    while i < errors.len()
        invariant
            i <= errors.len(),
            lines@.len() == i,
            forall|j: int|
                0 <= j < i ==> (#[trigger] lines@[j])@ == render_causes(scopes_view(errors@[j]@)),
        decreases errors.len() - i,
    {
        lines.push(join_strings(&errors[i], " - "));
        i = i + 1;
    }
    let r = join_strings(&lines, "\n");
    assert(scopes_view(lines@) =~= rendered_failures(failures_view(errors@)));
    r
}

/// Where failure `i` starts in `aggregate_message(f)`.
pub open spec fn failure_position(f: Seq<Seq<Seq<char>>>, i: int) -> int {
    aggregate_header().len() + join_offset(rendered_failures(f), 1, i)
}

/// The aggregate message holds every cause of every failure, verbatim, and the
/// failures appear in source order: cause `c` of failure `i` stands at
/// `failure_position(f, i) + join_offset(f[i], 3, c)`, and all of failure `i`
/// ends before failure `j` begins when `i < j`.
pub proof fn lemma_aggregate_in_order(f: Seq<Seq<Seq<char>>>, i: int, c: int, j: int)
    requires
        0 <= i < f.len(),
        0 <= c < f[i].len(),
    ensures
        ({
            let m = aggregate_message(f);
            let p = failure_position(f, i) + join_offset(f[i], 3, c);
            &&& p + f[i][c].len() <= m.len()
            &&& m.subrange(p, p + f[i][c].len()) == f[i][c]
        }),
        i < j < f.len() ==> failure_position(f, i) + render_causes(f[i]).len() < failure_position(
            f,
            j,
        ),
{
    let rendered = rendered_failures(f);
    let h = aggregate_header();
    let t = aggregate_text(f);
    let m = aggregate_message(f);
    let nl = "\n"@;
    let dash = " - "@;
    assert(nl.len() == 1) by {
        reveal_strlit("\n");
    }
    assert(dash.len() == 3) by {
        reveal_strlit(" - ");
    }
    lemma_join_piece(rendered, nl, i);
    lemma_join_piece(f[i], dash, c);
    let oi = join_offset(rendered, 1, i);
    let oc = join_offset(f[i], 3, c);
    lemma_offset_nonneg(rendered, 1, i);
    lemma_offset_nonneg(f[i], 3, c);
    assert(rendered[i] == render_causes(f[i]));
    assert(t.subrange(oi, oi + rendered[i].len()) == rendered[i]);
    assert(rendered[i].subrange(oc, oc + f[i][c].len()) == f[i][c]);
    assert(oc + f[i][c].len() <= rendered[i].len());
    assert(oi + rendered[i].len() <= t.len());
    assert(m == h + t);
    assert(m.subrange(h.len() + oi + oc, h.len() + oi + oc + f[i][c].len()) =~= t.subrange(
        oi,
        oi + rendered[i].len(),
    ).subrange(oc, oc + f[i][c].len()));
    if i < j < f.len() {
        lemma_offset_grows(rendered, 1, i, j);
    }
}

// ---------------------------------------------------------------------------
// Routing and pinning
// ---------------------------------------------------------------------------

/// Optional parameters of a [`ChainedTokenCredential`].
pub struct ChainedTokenCredentialOptions {
    /// Re-run the ordered search on every request instead of pinning the first
    /// source that succeeds.
    pub retry_sources: bool,
}

impl Default for ChainedTokenCredentialOptions {
    fn default() -> (r: Self)
        ensures
            !r.retry_sources,
    {
        ChainedTokenCredentialOptions { retry_sources: false }
    }
}

/// How a request that missed the token cache is answered.
pub enum Route {
    /// Run the ordered search over the sources, from the first.
    Search,
    /// Ask only this source (pinned by an earlier search); its error is the request's error.
    Pinned(usize),
    /// Another request is searching; wait for it to finish, then route again.
    AwaitSearch,
}

/// The route for a request, given the policy, the pin and whether a search runs.
pub open spec fn route_of(retry: bool, pinned: Option<usize>, searching: bool) -> Route {
    if retry {
        Route::Search
    } else {
        match pinned {
            Some(i) => Route::Pinned(i),
            None => if searching {
                Route::AwaitSearch
            } else {
                Route::Search
            },
        }
    }
}

/// Whether a search runs after routing: a pinning chain marks the search it starts.
pub open spec fn searching_after_route(retry: bool, pinned: Option<usize>, searching: bool) -> bool {
    if !retry && pinned is None && !searching {
        true
    } else {
        searching
    }
}

/// The pin after a search that ended with `winner` (the index of the source that
/// succeeded, or none when every source failed).
pub open spec fn pin_after_search(retry: bool, pinned: Option<usize>, winner: Option<usize>) -> Option<
    usize,
> {
    if !retry && winner is Some {
        winner
    } else {
        pinned
    }
}

/// What an ordered search does next.
pub enum SearchStep {
    /// Ask this source.
    Try(usize),
    /// This source succeeded: the search is over and its token is the answer.
    Done(usize),
    /// Every source failed: the request fails with this error.
    Exhausted(CredentialError),
}

/// The progress of one ordered search: how many sources failed, their failures
/// (each a cause chain, outermost first) in source order, and the source that
/// succeeded, once one has.
pub struct SearchState {
    next: usize,
    failures: Vec<Vec<String>>,
    winner: Option<usize>,
}

pub open spec fn opt_nat(o: Option<usize>) -> Option<nat> {
    match o {
        Some(i) => Some(i as nat),
        None => None,
    }
}

impl SearchState {
    /// The source the search asks next (or asked last, once it has a winner).
    pub closed spec fn next_spec(&self) -> nat {
        self.next as nat
    }

    /// The source that succeeded.
    pub closed spec fn winner_spec(&self) -> Option<nat> {
        opt_nat(self.winner)
    }

    /// The failures so far, in source order.
    pub closed spec fn failures_spec(&self) -> Seq<Seq<Seq<char>>> {
        failures_view(self.failures@)
    }

    /// A search over `n` sources: one failure per source passed, and a winner
    /// only at the source where the search stopped.
    pub open spec fn well_formed(&self, n: nat) -> bool {
        &&& self.failures_spec().len() == self.next_spec()
        &&& self.next_spec() <= n
        &&& self.winner_spec() is Some ==> self.winner_spec()->0 == self.next_spec()
            && self.next_spec() < n
    }
}

/// The source an ordered search over `n` sources asks next: the one after the
/// failures, while no source has succeeded and one is left.
pub open spec fn next_try(next: nat, winner: Option<nat>, n: nat) -> Option<nat> {
    if winner is None && next < n {
        Some(next)
    } else {
        None
    }
}

/// The sources that an ordered search asks, in order, from the state
/// (`next`, `winner`), when `outcomes[i]` tells whether source `i` succeeds:
/// the steps of [`ChainedTokenCredential::search_step`], with each outcome
/// reported by [`ChainedTokenCredential::record_success`] or
/// [`ChainedTokenCredential::record_failure`].
pub open spec fn search_run(outcomes: Seq<bool>, next: nat, winner: Option<nat>) -> Seq<nat>
    decreases outcomes.len() - next, if winner is None { 1int } else { 0int },
{
    match next_try(next, winner, outcomes.len()) {
        None => Seq::empty(),
        Some(i) => if outcomes[i as int] {
            seq![i] + search_run(outcomes, next, Some(i))
        } else {
            seq![i] + search_run(outcomes, next + 1, winner)
        },
    }
}

/// The source that such a search ends with, if any.
pub open spec fn search_winner(outcomes: Seq<bool>, next: nat, winner: Option<nat>) -> Option<nat>
    decreases outcomes.len() - next, if winner is None { 1int } else { 0int },
{
    match next_try(next, winner, outcomes.len()) {
        None => winner,
        Some(i) => if outcomes[i as int] {
            search_winner(outcomes, next, Some(i))
        } else {
            search_winner(outcomes, next + 1, winner)
        },
    }
}

proof fn lemma_search_run_from(outcomes: Seq<bool>, k: nat, next: nat)
    requires
        k < outcomes.len(),
        outcomes[k as int],
        next <= k,
        forall|j: int| 0 <= j < k ==> !outcomes[j],
    ensures
        search_run(outcomes, next, None) =~= Seq::new(
            (k + 1 - next) as nat,
            |i: int| (next + i) as nat,
        ),
        search_winner(outcomes, next, None) == Some(k),
    decreases k - next,
{
    if next < k {
        lemma_search_run_from(outcomes, k, next + 1);
    } else {
        assert(search_run(outcomes, k, Some(k)) =~= Seq::<nat>::empty());
        assert(search_winner(outcomes, k, Some(k)) == Some(k));
    }
}

/// Sources are asked strictly in configuration order and the first success ends
/// the search: with source `k` the first to succeed, the search asks sources
/// `0, 1, ..., k`, no other, and ends with `k`.
pub proof fn lemma_first_success_wins(outcomes: Seq<bool>, k: nat)
    requires
        k < outcomes.len(),
        outcomes[k as int],
        forall|j: int| 0 <= j < k ==> !outcomes[j],
    ensures
        search_run(outcomes, 0, None) == Seq::new(k + 1, |i: int| i as nat),
        forall|j: nat| k < j ==> !search_run(outcomes, 0, None).contains(j),
        search_winner(outcomes, 0, None) == Some(k),
{
    lemma_search_run_from(outcomes, k, 0);
    assert(search_run(outcomes, 0, None) =~= Seq::new(k + 1, |i: int| i as nat));
    assert forall|j: nat| k < j implies !search_run(outcomes, 0, None).contains(j) by {
        if search_run(outcomes, 0, None).contains(j) {
            let x = choose|x: int|
                0 <= x < search_run(outcomes, 0, None).len() && search_run(outcomes, 0, None)[x]
                    == j;
            assert(search_run(outcomes, 0, None)[x] == x as nat);
        }
    }
}

/// When every source fails, every source is asked, in order, and the search
/// ends with no winner.
pub proof fn lemma_all_fail_all_asked(outcomes: Seq<bool>, next: nat)
    requires
        forall|j: int| 0 <= j < outcomes.len() ==> !outcomes[j],
        next <= outcomes.len(),
    ensures
        search_run(outcomes, next, None) =~= Seq::new(
            (outcomes.len() - next) as nat,
            |i: int| (next + i) as nat,
        ),
        search_winner(outcomes, next, None) is None,
    decreases outcomes.len() - next,
{
    if next < outcomes.len() {
        lemma_all_fail_all_asked(outcomes, next + 1);
    }
}

/// A credential that tries an ordered list of sources until one succeeds.
///
/// The sources are handles of type `S` (shared handles to token sources); this
/// type holds them with the policy, the pinned source and whether a pinning
/// search is running, and decides each step. The caller performs the requests,
/// serialises calls on one value, and wakes the requests that were told to
/// wait when [`ChainedTokenCredential::finish_search`] is called.
pub struct ChainedTokenCredential<S> {
    options: ChainedTokenCredentialOptions,
    sources: Vec<S>,
    successful_credential: Option<usize>,
    searching: bool,
}

impl<S> ChainedTokenCredential<S> {
    pub closed spec fn retry_spec(&self) -> bool {
        self.options.retry_sources
    }

    pub closed spec fn sources_spec(&self) -> Seq<S> {
        self.sources@
    }

    /// The index of the pinned source.
    pub closed spec fn pinned_spec(&self) -> Option<usize> {
        self.successful_credential
    }

    pub closed spec fn searching_spec(&self) -> bool {
        self.searching
    }

    pub open spec fn well_formed(&self) -> bool {
        &&& self.pinned_spec() is Some ==> self.pinned_spec()->0 < self.sources_spec().len()
        &&& self.retry_spec() ==> self.pinned_spec() is None && !self.searching_spec()
    }

    /// A chain with no sources; without options, the chain pins.
    pub fn new(options: Option<ChainedTokenCredentialOptions>) -> (r: Self)
        ensures
            r.well_formed(),
            r.sources_spec().len() == 0,
            r.pinned_spec() is None,
            !r.searching_spec(),
            r.retry_spec() == match options {
                Some(o) => o.retry_sources,
                None => false,
            },
    {
        let options = match options {
            Some(o) => o,
            None => ChainedTokenCredentialOptions { retry_sources: false },
        };
        ChainedTokenCredential {
            options,
            sources: Vec::new(),
            successful_credential: None,
            searching: false,
        }
    }

    /// Adds a source at the end of the chain.
    pub fn add_source(&mut self, source: S)
        requires
            old(self).well_formed(),
        ensures
            final(self).well_formed(),
            final(self).sources_spec() == old(self).sources_spec().push(source),
            final(self).retry_spec() == old(self).retry_spec(),
            final(self).pinned_spec() == old(self).pinned_spec(),
            final(self).searching_spec() == old(self).searching_spec(),
    {
        self.sources.push(source);
    }

    pub fn retry_sources(&self) -> (r: bool)
        ensures
            r == self.retry_spec(),
    {
        self.options.retry_sources
    }

    pub fn len(&self) -> (r: usize)
        ensures
            r == self.sources_spec().len(),
    {
        self.sources.len()
    }

    /// The source at index `i`.
    pub fn source(&self, i: usize) -> (r: &S)
        requires
            i < self.sources_spec().len(),
        ensures
            *r == self.sources_spec()[i as int],
    {
        &self.sources[i]
    }

    /// Routes a request that missed the token cache. A pinning chain with no
    /// pin lets one request search and tells the others to wait for it.
    pub fn route(&mut self) -> (r: Route)
        requires
            old(self).well_formed(),
        ensures
            final(self).well_formed(),
            r == route_of(old(self).retry_spec(), old(self).pinned_spec(), old(self).searching_spec()),
            final(self).searching_spec() == searching_after_route(
                old(self).retry_spec(),
                old(self).pinned_spec(),
                old(self).searching_spec(),
            ),
            final(self).sources_spec() == old(self).sources_spec(),
            final(self).retry_spec() == old(self).retry_spec(),
            final(self).pinned_spec() == old(self).pinned_spec(),
    {
        if self.options.retry_sources {
            return Route::Search;
        }
        match self.successful_credential {
            Some(i) => Route::Pinned(i),
            None => {
                if self.searching {
                    Route::AwaitSearch
                } else {
                    self.searching = true;
                    Route::Search
                }
            },
        }
    }

    /// A search that starts at the first source.
    pub fn start_search(&self) -> (r: SearchState)
        ensures
            r.well_formed(self.sources_spec().len()),
            r.next_spec() == 0,
            r.winner_spec() is None,
            r.failures_spec().len() == 0,
    {
        let r = SearchState { next: 0, failures: Vec::new(), winner: None };
        assert(r.failures_spec() =~= Seq::<Seq<Seq<char>>>::empty());
        r
    }

    /// The next step of a search: ask the next source; end with the source
    /// that succeeded; or, when every source failed, fail with the aggregate of
    /// their failures.
    pub fn search_step(&self, st: &SearchState) -> (r: SearchStep)
        requires
            st.well_formed(self.sources_spec().len()),
        ensures
            match r {
                SearchStep::Try(i) => next_try(
                    st.next_spec(),
                    st.winner_spec(),
                    self.sources_spec().len(),
                ) == Some(i as nat),
                SearchStep::Done(i) => st.winner_spec() == Some(i as nat) && i
                    < self.sources_spec().len(),
                SearchStep::Exhausted(e) => st.winner_spec() is None && st.next_spec()
                    == self.sources_spec().len() && e.kind == ErrorKind::Credential && e.message@
                    == aggregate_message(st.failures_spec()),
            },
    {
        match st.winner {
            Some(i) => {
                return SearchStep::Done(i);
            },
            None => {},
        }
        if st.next < self.sources.len() {
            SearchStep::Try(st.next)
        } else {
            let mut m = String::from_str(
                "Multiple errors were encountered while attempting to authenticate:\n",
            );
            let text = format_aggregate_error(&st.failures);
            m.append(text.as_str());
            SearchStep::Exhausted(CredentialError::new(ErrorKind::Credential, m))
        }
    }

    /// Records that the source the search asked succeeded: the search ends
    /// with it, and no later source is asked.
    pub fn record_success(&self, st: &mut SearchState)
        requires
            old(st).well_formed(self.sources_spec().len()),
            next_try(old(st).next_spec(), old(st).winner_spec(), self.sources_spec().len()) is Some,
        ensures
            final(st).well_formed(self.sources_spec().len()),
            final(st).next_spec() == old(st).next_spec(),
            final(st).winner_spec() == Some(old(st).next_spec()),
            final(st).failures_spec() == old(st).failures_spec(),
    {
        st.winner = Some(st.next);
    }

    /// Records that the source the search asked failed with `causes` (its
    /// message, then those of its causes): the search goes on with the next.
    pub fn record_failure(&self, st: &mut SearchState, causes: Vec<String>)
        requires
            old(st).well_formed(self.sources_spec().len()),
            next_try(old(st).next_spec(), old(st).winner_spec(), self.sources_spec().len()) is Some,
        ensures
            final(st).well_formed(self.sources_spec().len()),
            final(st).next_spec() == old(st).next_spec() + 1,
            final(st).winner_spec() is None,
            final(st).failures_spec() == old(st).failures_spec().push(scopes_view(causes@)),
    {
        let ghost before = st.failures@;
        let n = self.sources.len();
        assert(st.next < n);
        st.failures.push(causes);
        st.next = st.next + 1;
        assert(failures_view(st.failures@) =~= failures_view(before).push(scopes_view(causes@)));
    }

    /// Ends the running search; `winner` is the source that succeeded, if any.
    /// A pinning chain pins the winner.
    pub fn finish_search(&mut self, winner: Option<usize>)
        requires
            old(self).well_formed(),
            winner is Some ==> winner->0 < old(self).sources_spec().len(),
        ensures
            final(self).well_formed(),
            !final(self).searching_spec(),
            final(self).pinned_spec() == pin_after_search(
                old(self).retry_spec(),
                old(self).pinned_spec(),
                winner,
            ),
            final(self).sources_spec() == old(self).sources_spec(),
            final(self).retry_spec() == old(self).retry_spec(),
    {
        self.searching = false;
        if !self.options.retry_sources {
            match winner {
                Some(i) => {
                    self.successful_credential = Some(i);
                },
                None => {},
            }
        }
    }

    /// Forgets the pinned source: the next request searches again.
    pub fn clear(&mut self)
        requires
            old(self).well_formed(),
        ensures
            final(self).well_formed(),
            final(self).pinned_spec() is None,
            final(self).searching_spec() == old(self).searching_spec(),
            final(self).sources_spec() == old(self).sources_spec(),
            final(self).retry_spec() == old(self).retry_spec(),
    {
        self.successful_credential = None;
    }
}

/// Routes that requests arriving one after another receive, from the state
/// (`pinned`, `searching`), while no search finishes.
pub open spec fn route_run(retry: bool, pinned: Option<usize>, searching: bool, n: nat) -> Seq<Route>
    decreases n,
{
    if n == 0 {
        Seq::empty()
    } else {
        seq![route_of(retry, pinned, searching)] + route_run(
            retry,
            pinned,
            searching_after_route(retry, pinned, searching),
            (n - 1) as nat,
        )
    }
}

proof fn lemma_route_run_len(retry: bool, pinned: Option<usize>, searching: bool, n: nat)
    ensures
        route_run(retry, pinned, searching, n).len() == n,
    decreases n,
{
    if n > 0 {
        lemma_route_run_len(retry, pinned, searching_after_route(retry, pinned, searching), (n - 1) as nat);
    }
}

proof fn lemma_route_run_const(retry: bool, pinned: Option<usize>, searching: bool, n: nat, r: Route)
    requires
        route_of(retry, pinned, searching) == r,
        searching_after_route(retry, pinned, searching) == searching,
    ensures
        route_run(retry, pinned, searching, n) =~= Seq::new(n, |i: int| r),
    decreases n,
{
    if n > 0 {
        lemma_route_run_const(retry, pinned, searching, (n - 1) as nat, r);
    }
}

/// Pinning: once a pinning chain has pinned source `i`, every later request goes
/// to source `i` alone, however many come and whatever that source answers
/// (nothing but `clear` changes the pin); a chain that retries sends every
/// request to a full search from the first source and never pins.
pub proof fn lemma_pin_persists(retry: bool, pinned: Option<usize>, searching: bool, n: nat, w: Option<usize>)
    ensures
        !retry && pinned is Some ==> route_run(retry, pinned, searching, n) == Seq::new(
            n,
            |k: int| Route::Pinned(pinned->0),
        ),
        retry ==> route_run(retry, pinned, searching, n) == Seq::new(n, |k: int| Route::Search),
        retry ==> pin_after_search(retry, None, w) is None,
{
    if !retry && pinned is Some {
        lemma_route_run_const(retry, pinned, searching, n, Route::Pinned(pinned->0));
    }
    if retry {
        lemma_route_run_const(retry, pinned, searching, n, Route::Search);
    }
}

/// Pin race: when `n` requests reach a pinning chain with no pin and no search
/// running, exactly one of them (the first) searches and every other one
/// waits; once that search pins source `i`, all of them are sent to source `i`.
pub proof fn lemma_single_search(n: nat, i: usize)
    requires
        n > 0,
    ensures
        route_run(false, None, false, n)[0] == Route::Search,
        forall|k: int| 1 <= k < n ==> #[trigger] route_run(false, None, false, n)[k] == Route::AwaitSearch,
        pin_after_search(false, None, Some(i)) == Some(i),
        route_run(false, Some(i), false, n) == Seq::new(n, |k: int| Route::Pinned(i)),
{
    lemma_route_run_const(false, None, true, (n - 1) as nat, Route::AwaitSearch);
    assert forall|k: int| 1 <= k < n implies #[trigger] route_run(false, None, false, n)[k]
        == Route::AwaitSearch by {
        assert(route_run(false, None, false, n)[k] == route_run(false, None, true, (n - 1) as nat)[k
            - 1]);
    }
    lemma_route_run_const(false, Some(i), false, n, Route::Pinned(i));
}

/// Clearing a chain (its token cache and its pin) while no search runs makes
/// the next request fetch, search, and start the search at the first source,
/// whatever was cached or pinned before.
pub proof fn lemma_cleared_chain_searches_anew<S>(
    cache: TokenCache,
    chain: ChainedTokenCredential<S>,
    key: Seq<Seq<char>>,
    now: int,
)
    requires
        forall|k: Seq<Seq<char>>| (#[trigger] cache.entry(k)) is None,
        chain.well_formed(),
        chain.pinned_spec() is None,
        !chain.searching_spec(),
    ensures
        begin_action(cache.entry(key), now, cache.skew_spec()) is Fetch,
        route_of(chain.retry_spec(), chain.pinned_spec(), chain.searching_spec()) == Route::Search,
        next_try(0, None, chain.sources_spec().len()) == if chain.sources_spec().len() > 0 {
            Some(0nat)
        } else {
            None
        },
{
    lemma_clear_forces_fetch(cache, key, now);
}

} // verus!
