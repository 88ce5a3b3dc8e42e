use vstd::prelude::*;

use crate::addr::{key_lt, lemma_key_lt_trans, lemma_key_lt_trichotomy, Addr};
use crate::error::ContractError;
use crate::msg::{
    ExecuteMsg, GamesByHostResponse, GamesByOppResponse, HostMoveResponse, HostResponse,
    InstantiateMsg, OppMoveResponse, OpponentResponse, QueryAnswer, QueryMsg, ResultResponse,
};
use crate::resolve::{resolve, spec_resolve};
use crate::state::{RecordV, Rps, SearchResults, State, StateV};

verus! {

/// The indexed records stand in strictly ascending compound-key order:
/// primarily by host bytes, then by opponent bytes. Strictness makes every
/// key unique.
pub open spec fn sorted(games: Seq<RecordV>) -> bool {
    forall|i: int, j: int|
        #![trigger games[i], games[j]]
        0 <= i < j < games.len() ==> key_lt(games[i].key, games[j].key)
}

/// Last-write-wins storage of a record: the store with any previous record
/// under `key` replaced by `state`, or with the new record inserted at its
/// ordered position.
pub open spec fn upsert(games: Seq<RecordV>, key: (Seq<u8>, Seq<u8>), state: StateV) -> Seq<
    RecordV,
>
    decreases games.len(),
{
    let rec = RecordV { key, state };
    if games.len() == 0 {
        seq![rec]
    } else if key_lt(key, games[0].key) {
        seq![rec] + games
    } else if key == games[0].key {
        seq![rec] + games.drop_first()
    } else {
        seq![games[0]] + upsert(games.drop_first(), key, state)
    }
}

/// The records whose compound key's first component is `host`, in store
/// order.
pub open spec fn by_host(games: Seq<RecordV>, host: Seq<u8>) -> Seq<RecordV> {
    games.filter(|r: RecordV| r.key.0 == host)
}

/// The records whose compound key's second component is `opp`, in store
/// order.
pub open spec fn by_opp(games: Seq<RecordV>, opp: Seq<u8>) -> Seq<RecordV> {
    games.filter(|r: RecordV| r.key.1 == opp)
}

/// The records stored under exactly the compound key `key`.
pub open spec fn by_key(games: Seq<RecordV>, key: (Seq<u8>, Seq<u8>)) -> Seq<RecordV> {
    games.filter(|r: RecordV| r.key == key)
}

/// Filtering a sequence none of whose elements satisfies the predicate
/// yields the empty sequence.
proof fn lemma_filter_all_false<A>(s: Seq<A>, pred: spec_fn(A) -> bool)
    requires
        forall|i: int| 0 <= i < s.len() ==> !pred(#[trigger] s[i]),
    ensures
        s.filter(pred) == Seq::<A>::empty(),
    decreases s.len(),
{
    reveal(Seq::filter);
    if s.len() == 0 {
        assert(s =~= Seq::<A>::empty());
    } else {
        assert(forall|i: int| 0 <= i < s.drop_last().len() ==> !pred(#[trigger] s.drop_last()[i]))
            by {
            assert(forall|i: int|
                0 <= i < s.drop_last().len() ==> #[trigger] s.drop_last()[i] == s[i]);
        }
        lemma_filter_all_false(s.drop_last(), pred);
    }
}

/// Filtering a singleton keeps or drops its one element.
proof fn lemma_filter_singleton<A>(x: A, pred: spec_fn(A) -> bool)
    ensures
        pred(x) ==> seq![x].filter(pred) == seq![x],
        !pred(x) ==> seq![x].filter(pred) == Seq::<A>::empty(),
{
    reveal(Seq::filter);
    assert(seq![x].drop_last() =~= Seq::<A>::empty());
    assert(seq![x].last() == x);
    assert(Seq::<A>::empty().filter(pred) == Seq::<A>::empty());
    if pred(x) {
        assert(Seq::<A>::empty().push(x) =~= seq![x]);
    }
}

/// A strictly sorted store stays strictly sorted when its first record is
/// dropped.
proof fn lemma_sorted_drop_first(games: Seq<RecordV>)
    requires
        sorted(games),
        games.len() > 0,
    ensures
        sorted(games.drop_first()),
{
    assert forall|m: int, n: int|
        0 <= m < n < games.drop_first().len() implies key_lt(
        #[trigger] games.drop_first()[m].key,
        #[trigger] games.drop_first()[n].key,
    ) by {
        assert(games.drop_first()[m] == games[m + 1]);
        assert(games.drop_first()[n] == games[n + 1]);
    }
}

/// In a sorted store, `upsert` lands at the unique ordered position: if a
/// record with the key exists there it is replaced in place, otherwise the
/// new record is inserted there.
#[verifier::rlimit(60)]
proof fn lemma_upsert_at(games: Seq<RecordV>, key: (Seq<u8>, Seq<u8>), state: StateV, i: int)
    requires
        sorted(games),
        0 <= i <= games.len(),
        forall|j: int| 0 <= j < i ==> key_lt((#[trigger] games[j]).key, key),
        i < games.len() ==> !key_lt(games[i].key, key),
    ensures
        i < games.len() && games[i].key == key ==> upsert(games, key, state) == games.update(
            i,
            (RecordV { key, state }),
        ),
        (i == games.len() || key_lt(key, games[i].key)) ==> upsert(games, key, state)
            == games.insert(i, (RecordV { key, state })),
    decreases games.len(),
{
    let rec = RecordV { key, state };
    if i == 0 {
        if games.len() == 0 {
            assert(upsert(games, key, state) =~= games.insert(0, rec));
        } else {
            lemma_key_lt_trichotomy(games[0].key, key);
            if games[0].key == key {
                assert(seq![rec] + games.drop_first() =~= games.update(0, rec));
            } else {
                assert(key_lt(key, games[0].key));
                assert(seq![rec] + games =~= games.insert(0, rec));
            }
        }
    } else {
        // i > 0, so the store is nonempty and its first record's key
        // precedes the new key: upsert recurses past it.
        assert(key_lt(games[0].key, key));
        lemma_key_lt_trichotomy(games[0].key, key);
        assert(!key_lt(key, games[0].key) && key != games[0].key);
        let rest = games.drop_first();
        lemma_sorted_drop_first(games);
        assert(forall|j: int| 0 <= j < i - 1 ==> key_lt((#[trigger] rest[j]).key, key)) by {
            assert(forall|j: int| 0 <= j < i - 1 ==> #[trigger] rest[j] == games[j + 1]);
        }
        assert(i - 1 < rest.len() ==> !key_lt(rest[i - 1].key, key)) by {
            if i - 1 < rest.len() {
                assert(rest[i - 1] == games[i]);
            }
        }
        lemma_upsert_at(rest, key, state, i - 1);
        if i < games.len() && games[i].key == key {
            assert(rest[i - 1] == games[i]);
            assert(upsert(games, key, state) == seq![games[0]] + rest.update(i - 1, rec));
            assert(seq![games[0]] + rest.update(i - 1, rec) =~= games.update(i, rec));
        }
        if i == games.len() || key_lt(key, games[i].key) {
            assert(i - 1 == rest.len() || key_lt(key, rest[i - 1].key)) by {
                if i < games.len() {
                    assert(rest[i - 1] == games[i]);
                }
            }
            assert(upsert(games, key, state) == seq![games[0]] + rest.insert(i - 1, rec));
            assert(seq![games[0]] + rest.insert(i - 1, rec) =~= games.insert(i, rec));
        }
    }
}

/// What storing a record does to a sorted store: the result is still
/// sorted; it holds the new record, and under its key exactly that one
/// record; and every record of the result is the new one or one already
/// present.
pub proof fn lemma_upsert_props(games: Seq<RecordV>, key: (Seq<u8>, Seq<u8>), state: StateV)
    requires
        sorted(games),
    ensures
        sorted(upsert(games, key, state)),
        upsert(games, key, state).contains((RecordV { key, state })),
        by_key(upsert(games, key, state), key) == seq![(RecordV { key, state })],
        forall|j: int|
            0 <= j < upsert(games, key, state).len() ==> (#[trigger] upsert(games, key, state)[j])
                == (RecordV { key, state }) || games.contains(upsert(games, key, state)[j]),
    decreases games.len(),
{
    let rec = RecordV { key, state };
    let out = upsert(games, key, state);
    let pred = |r: RecordV| r.key == key;
    if games.len() == 0 {
        lemma_filter_singleton(rec, pred);
        assert(out == seq![rec]);
        assert(out[0] == rec);
    } else if key_lt(key, games[0].key) {
        assert(out == seq![rec] + games);
        assert(out[0] == rec);
        // Every stored key strictly exceeds the new key.
        assert forall|j: int| 0 <= j < games.len() implies key_lt(key, (#[trigger] games[j]).key)
            by {
            if j > 0 {
                lemma_key_lt_trans(key, games[0].key, games[j].key);
            }
        }
        assert forall|m: int, n: int| 0 <= m < n < out.len() implies key_lt(
            #[trigger] out[m].key,
            #[trigger] out[n].key,
        ) by {
            if m > 0 {
                assert(out[m] == games[m - 1]);
                assert(out[n] == games[n - 1]);
            } else {
                assert(out[n] == games[n - 1]);
            }
        }
        assert forall|j: int| 0 <= j < games.len() implies !pred(#[trigger] games[j]) by {
            lemma_key_lt_trichotomy(key, games[j].key);
        }
        lemma_filter_all_false(games, pred);
        lemma_filter_singleton(rec, pred);
        Seq::filter_distributes_over_add(seq![rec], games, pred);
        assert(by_key(out, key) =~= seq![rec]);
        assert(forall|j: int| 1 <= j < out.len() ==> #[trigger] out[j] == games[j - 1]);
    } else if key == games[0].key {
        let rest = games.drop_first();
        assert(out == seq![rec] + rest);
        assert(out[0] == rec);
        lemma_sorted_drop_first(games);
        assert forall|j: int| 0 <= j < rest.len() implies key_lt(key, (#[trigger] rest[j]).key)
            by {
            assert(rest[j] == games[j + 1]);
        }
        assert forall|m: int, n: int| 0 <= m < n < out.len() implies key_lt(
            #[trigger] out[m].key,
            #[trigger] out[n].key,
        ) by {
            if m > 0 {
                assert(out[m] == rest[m - 1]);
            }
            assert(out[n] == rest[n - 1]);
        }
        assert forall|j: int| 0 <= j < rest.len() implies !pred(#[trigger] rest[j]) by {
            lemma_key_lt_trichotomy(key, rest[j].key);
        }
        lemma_filter_all_false(rest, pred);
        lemma_filter_singleton(rec, pred);
        Seq::filter_distributes_over_add(seq![rec], rest, pred);
        assert(by_key(out, key) =~= seq![rec]);
        assert forall|j: int|
            0 <= j < out.len() implies #[trigger] out[j] == rec || games.contains(out[j]) by {
            if j > 0 {
                assert(out[j] == games[j]);
            }
        }
    } else {
        // The first record's key precedes the new key: the store's head is
        // kept and the tail is upserted.
        lemma_key_lt_trichotomy(key, games[0].key);
        assert(key_lt(games[0].key, key));
        let rest = games.drop_first();
        lemma_sorted_drop_first(games);
        lemma_upsert_props(rest, key, state);
        let sub = upsert(rest, key, state);
        assert(out == seq![games[0]] + sub);
        // The head's key precedes every key in the upserted tail.
        assert forall|j: int| 0 <= j < sub.len() implies key_lt(
            games[0].key,
            (#[trigger] sub[j]).key,
        ) by {
            if sub[j] == rec {
            } else {
                assert(rest.contains(sub[j]));
                let m = choose|m: int| 0 <= m < rest.len() && rest[m] == sub[j];
                assert(rest[m] == games[m + 1]);
            }
        }
        assert forall|m: int, n: int| 0 <= m < n < out.len() implies key_lt(
            #[trigger] out[m].key,
            #[trigger] out[n].key,
        ) by {
            assert(out[n] == sub[n - 1]);
            if m > 0 {
                assert(out[m] == sub[m - 1]);
            }
        }
        assert(sorted(out));
        assert(sub.contains(rec));
        assert forall|j: int|
            0 <= j < out.len() implies #[trigger] out[j] == rec || games.contains(out[j]) by {
            if j > 0 {
                assert(out[j] == sub[j - 1]);
                if sub[j - 1] == rec {
                } else {
                    assert(rest.contains(sub[j - 1]));
                    let m = choose|m: int| 0 <= m < rest.len() && rest[m] == sub[j - 1];
                    assert(games[m + 1] == sub[j - 1]);
                }
            }
        }
        assert(out.contains(rec)) by {
            let m = choose|m: int| 0 <= m < sub.len() && sub[m] == rec;
            assert(out[m + 1] == rec);
        }
        lemma_filter_singleton(games[0], pred);
        lemma_key_lt_trichotomy(games[0].key, key);
        assert(!pred(games[0]));
        Seq::filter_distributes_over_add(seq![games[0]], sub, pred);
        assert(seq![games[0]].filter(pred) + sub.filter(pred) =~= sub.filter(pred));
        assert(by_key(out, key) == by_key(sub, key));
    }
}

/// The mathematical value of the registry: the optional singleton session
/// and the indexed records in store order.
pub ghost struct RegistryV {
    pub state: Option<StateV>,
    pub games: Seq<RecordV>,
}

/// The session registry: the authoritative store for the singleton session
/// and for the records indexed by `(host, opponent)` participant pair. The
/// indexed store is last-write-wins per pair, held in ascending compound-key
/// byte order.
pub struct Registry {
    state: Option<State>,
    games: Vec<Rps>,
}

impl View for Registry {
    type V = RegistryV;

    closed spec fn view(&self) -> RegistryV {
        RegistryV {
            state: match self.state {
                Some(s) => Some(s@),
                None => None,
            },
            games: self.games@.map_values(|r: Rps| r@),
        }
    }
}

/// The singleton session an initialization request creates: the given
/// participants and moves, with the outcome resolved immediately when both
/// moves are supplied and absent otherwise.
pub open spec fn init_state(msg: InstantiateMsg) -> StateV {
    StateV {
        host: msg.host@,
        opponent: msg.opponent@,
        host_move: msg.host_move,
        opp_move: msg.opp_move,
        result: match (msg.host_move, msg.opp_move) {
            (Some(h), Some(o)) => Some(spec_resolve(h, o)),
            _ => None,
        },
    }
}

/// Builds the session an initialization request describes, resolving the
/// outcome when both moves are present.
pub fn init_session(msg: InstantiateMsg) -> (r: State)
    ensures
        r@ == init_state(msg),
        r@.wf(),
{
    let result = match (msg.host_move, msg.opp_move) {
        (Some(h), Some(o)) => Some(resolve(h, o)),
        _ => None,
    };
    State {
        host: msg.host,
        opponent: msg.opponent,
        host_move: msg.host_move,
        opp_move: msg.opp_move,
        result,
    }
}

/// The host-reassignment rule: only the session's current host may hand the
/// session to a new host, and doing so changes no other field.
pub fn change_host_transition(state: State, caller: &Addr, new_host: Addr) -> (r: Result<
    State,
    ContractError,
>)
    ensures
        caller@ != state@.host ==> r == Err::<State, ContractError>(ContractError::Unauthorized),
        caller@ == state@.host ==> (r matches Ok(s) && s@ == (StateV { host: new_host@, ..state@ })),
{
    if !(*caller == state.host) {
        return Err(ContractError::Unauthorized);
    }
    Ok(
        State {
            host: new_host,
            opponent: state.opponent,
            host_move: state.host_move,
            opp_move: state.opp_move,
            result: state.result,
        },
    )
}

/// The game-start authorization rule: only the candidate session's own host
/// may submit it.
pub fn start_game_authorize(caller: &Addr, state: &State) -> (r: Result<(), ContractError>)
    ensures
        r == if caller@ == state@.host {
            Ok::<(), ContractError>(())
        } else {
            Err::<(), ContractError>(ContractError::Unauthorized)
        },
{
    if *caller == state.host {
        Ok(())
    } else {
        Err(ContractError::Unauthorized)
    }
}

/// Whether compound key `a` strictly precedes compound key `b` in store
/// order.
fn key_lt_exec(a: &(Addr, Addr), b: &(Addr, Addr)) -> (r: bool)
    ensures
        r == key_lt((a.0@, a.1@), (b.0@, b.1@)),
{
    if a.0.byte_lt(&b.0) {
        true
    } else if b.0.byte_lt(&a.0) {
        false
    } else {
        proof {
            crate::addr::lemma_lex_lt_trichotomy(a.0@, b.0@);
        }
        a.1.byte_lt(&b.1)
    }
}

/// Whether two compound keys are the same pair of principals.
fn key_eq_exec(a: &(Addr, Addr), b: &(Addr, Addr)) -> (r: bool)
    ensures
        r == ((a.0@, a.1@) == (b.0@, b.1@)),
{
    a.0 == b.0 && a.1 == b.1
}

impl Registry {
    /// The registry's well-formedness: its indexed records are strictly
    /// sorted by compound key, so each participant pair holds at most one
    /// record.
    pub open spec fn wf(self) -> bool {
        sorted(self@.games)
    }

    /// An empty registry: no singleton session, no indexed records.
    pub fn new() -> (r: Registry)
        ensures
            r@.state is None,
            r@.games == Seq::<RecordV>::empty(),
            r.wf(),
    {
        let r = Registry { state: None, games: Vec::new() };
        proof {
            assert(r@.games =~= Seq::<RecordV>::empty());
        }
        r
    }

    /// Bootstrap: creates the singleton session, resolving the outcome when
    /// both moves are supplied. No authorization check; rejects a registry
    /// that already holds a singleton.
    pub fn instantiate(&mut self, msg: InstantiateMsg) -> (r: Result<(), ContractError>)
        requires
            old(self).wf(),
        ensures
            final(self).wf(),
            final(self)@.games == old(self)@.games,
            old(self)@.state is Some ==> r == Err::<(), ContractError>(
                ContractError::AlreadyInitialized,
            ) && final(self)@ == old(self)@,
            old(self)@.state is None ==> r == Ok::<(), ContractError>(()) && final(self)@.state
                == Some(init_state(msg)) && init_state(msg).wf(),
    {
        if self.state.is_some() {
            return Err(ContractError::AlreadyInitialized);
        }
        self.state = Some(init_session(msg));
        Ok(())
    }

    /// Reassigns the singleton session's host. Fails with `Unauthorized`
    /// unless the caller is the current host, and with `NotFound` before
    /// initialization; on failure the registry is unchanged. On success only
    /// the `host` field changes, and the updated session is returned.
    pub fn try_change_host(&mut self, caller: &Addr, new_host: Addr) -> (r: Result<
        State,
        ContractError,
    >)
        requires
            old(self).wf(),
        ensures
            final(self).wf(),
            final(self)@.games == old(self)@.games,
            match old(self)@.state {
                None => r == Err::<State, ContractError>(ContractError::NotFound) && final(self)@
                    == old(self)@,
                Some(s) => if caller@ != s.host {
                    r == Err::<State, ContractError>(ContractError::Unauthorized) && final(self)@
                        == old(self)@
                } else {
                    &&& final(self)@.state == Some((StateV { host: new_host@, ..s }))
                    &&& r matches Ok(u) && u@ == (StateV { host: new_host@, ..s })
                },
            },
    {
        let current = match &self.state {
            None => {
                return Err(ContractError::NotFound);
            },
            Some(s) => s.clone(),
        };
        match change_host_transition(current, caller, new_host) {
            Ok(updated) => {
                self.state = Some(updated.clone());
                Ok(updated)
            },
            Err(e) => Err(e),
        }
    }

    /// Stores `state` as the indexed record under the `host_and_opp`
    /// participant pair, replacing any record of that pair. Fails with
    /// `Unauthorized` unless the caller is the candidate session's host, and
    /// then writes nothing. The singleton session is never touched, and the
    /// candidate's own `outcome` is stored as given, not recomputed.
    pub fn try_start_game(&mut self, caller: &Addr, host_and_opp: (Addr, Addr), state: State) -> (r:
        Result<(), ContractError>)
        requires
            old(self).wf(),
        ensures
            final(self).wf(),
            final(self)@.state == old(self)@.state,
            caller@ != state@.host ==> r == Err::<(), ContractError>(ContractError::Unauthorized)
                && final(self)@ == old(self)@,
            caller@ == state@.host ==> r == Ok::<(), ContractError>(()) && final(self)@.games
                == upsert(old(self)@.games, (host_and_opp.0@, host_and_opp.1@), state@),
    {
        match start_game_authorize(caller, &state) {
            Err(e) => {
                return Err(e);
            },
            Ok(_) => {},
        }
        let ghost g0 = self@;
        let ghost key = (host_and_opp.0@, host_and_opp.1@);
        let ghost stv = state@;
        let rps = Rps { host_and_opp, state };
        proof {
            assert(rps@ == (RecordV { key, state: stv }));
        }
        let mut i: usize = 0;
        loop
            invariant
                i <= self.games.len(),
                self@ == g0,
                self.wf(),
                rps@ == (RecordV { key, state: stv }),
                forall|j: int| 0 <= j < i ==> key_lt((#[trigger] g0.games[j]).key, key),
            ensures
                i <= self.games.len(),
                self@ == g0,
                forall|j: int| 0 <= j < i ==> key_lt((#[trigger] g0.games[j]).key, key),
                i < self.games.len() ==> !key_lt(g0.games[i as int].key, key),
            decreases self.games.len() - i,
        {
            if i == self.games.len() {
                break ;
            }
            proof {
                assert(g0.games[i as int] == self.games@[i as int]@);
            }
            if !key_lt_exec(&self.games[i].host_and_opp, &rps.host_and_opp) {
                break ;
            }
            i += 1;
        }
        proof {
            lemma_upsert_props(g0.games, key, stv);
        }
        let replace = i < self.games.len() && key_eq_exec(
            &self.games[i].host_and_opp,
            &rps.host_and_opp,
        );
        proof {
            assert(i < self.games.len() ==> g0.games[i as int] == self.games@[i as int]@);
            if i < self.games.len() && !replace {
                lemma_key_lt_trichotomy(g0.games[i as int].key, key);
            }
            lemma_upsert_at(g0.games, key, stv, i as int);
        }
        if replace {
            self.games[i] = rps;
            proof {
                assert(self@.games =~= g0.games.update(i as int, (RecordV { key, state: stv })));
            }
        } else {
            self.games.insert(i, rps);
            proof {
                assert(self@.games =~= g0.games.insert(i as int, (RecordV { key, state: stv })));
            }
        }
        Ok(())
    }

    /// The singleton session's host.
    pub fn query_host(&self) -> (r: Result<HostResponse, ContractError>)
        ensures
            match self@.state {
                None => r == Err::<HostResponse, ContractError>(ContractError::NotFound),
                Some(s) => r matches Ok(h) && h.host@ == s.host,
            },
    {
        match &self.state {
            None => Err(ContractError::NotFound),
            Some(s) => Ok(HostResponse { host: s.host.clone() }),
        }
    }

    /// The singleton session's opponent.
    pub fn query_opponent(&self) -> (r: Result<OpponentResponse, ContractError>)
        ensures
            match self@.state {
                None => r == Err::<OpponentResponse, ContractError>(ContractError::NotFound),
                Some(s) => r matches Ok(o) && o.opponent@ == s.opponent,
            },
    {
        match &self.state {
            None => Err(ContractError::NotFound),
            Some(s) => Ok(OpponentResponse { opponent: s.opponent.clone() }),
        }
    }

    /// The singleton session's host move, absent until submitted.
    pub fn query_host_move(&self) -> (r: Result<HostMoveResponse, ContractError>)
        ensures
            match self@.state {
                None => r == Err::<HostMoveResponse, ContractError>(ContractError::NotFound),
                Some(s) => r matches Ok(m) && m.host_move == s.host_move,
            },
    {
        match &self.state {
            None => Err(ContractError::NotFound),
            Some(s) => Ok(HostMoveResponse { host_move: s.host_move }),
        }
    }

    /// The singleton session's opponent move, absent until submitted.
    pub fn query_opponent_move(&self) -> (r: Result<OppMoveResponse, ContractError>)
        ensures
            match self@.state {
                None => r == Err::<OppMoveResponse, ContractError>(ContractError::NotFound),
                Some(s) => r matches Ok(m) && m.opp_move == s.opp_move,
            },
    {
        match &self.state {
            None => Err(ContractError::NotFound),
            Some(s) => Ok(OppMoveResponse { opp_move: s.opp_move }),
        }
    }

    /// All indexed records whose participant pair names `host` as the host,
    /// found by a scan over the key-ordered store; since the store is
    /// ordered primarily by host, the matches are contiguous and come out in
    /// ascending byte order of the opponent identifier. Zero matches yield
    /// an empty response, not an error.
    pub fn query_games_by_host(&self, host: &Addr) -> (r: GamesByHostResponse)
        ensures
            r.games@.map_values(|x: SearchResults| x@) == by_host(self@.games, host@),
    {
        let mut out: Vec<SearchResults> = Vec::new();
        let mut i: usize = 0;
        while i < self.games.len()
            invariant
                i <= self.games.len(),
                out@.map_values(|x: SearchResults| x@) == by_host(
                    self@.games.take(i as int),
                    host@,
                ),
            decreases self.games.len() - i,
        {
            let ghost pre = out@.map_values(|x: SearchResults| x@);
            proof {
                assert(self@.games[i as int] == self.games@[i as int]@);
                reveal(Seq::filter);
                assert(self@.games.take(i + 1).drop_last() =~= self@.games.take(i as int));
                assert(self@.games.take(i + 1).last() == self@.games[i as int]);
            }
            let rec = &self.games[i];
            if rec.host_and_opp.0 == *host {
                let found = SearchResults {
                    host_and_opp: (rec.host_and_opp.0.clone(), rec.host_and_opp.1.clone()),
                    state: rec.state.clone(),
                };
                proof {
                    assert(found@ == self@.games[i as int]);
                }
                out.push(found);
                proof {
                    assert(out@.map_values(|x: SearchResults| x@) =~= pre.push(
                        self@.games[i as int],
                    ));
                }
            }
            i += 1;
        }
        proof {
            assert(self@.games.take(self.games@.len() as int) =~= self@.games);
        }
        GamesByHostResponse { games: out }
    }

    /// All indexed records whose participant pair names `opp` as the
    /// opponent. The compound-key order is primarily by host, so no prefix
    /// of the store isolates an opponent: this is a full scan with a filter
    /// predicate, costing a pass over every record rather than a seek into
    /// the order. Matches come out in store order; zero matches yield an
    /// empty response, not an error.
    pub fn query_games_by_opp(&self, opp: &Addr) -> (r: GamesByOppResponse)
        ensures
            r.games@.map_values(|x: SearchResults| x@) == by_opp(self@.games, opp@),
    {
        let mut out: Vec<SearchResults> = Vec::new();
        let mut i: usize = 0;
        while i < self.games.len()
            invariant
                i <= self.games.len(),
                out@.map_values(|x: SearchResults| x@) == by_opp(self@.games.take(i as int), opp@),
            decreases self.games.len() - i,
        {
            let ghost pre = out@.map_values(|x: SearchResults| x@);
            proof {
                assert(self@.games[i as int] == self.games@[i as int]@);
                reveal(Seq::filter);
                assert(self@.games.take(i + 1).drop_last() =~= self@.games.take(i as int));
                assert(self@.games.take(i + 1).last() == self@.games[i as int]);
            }
            let rec = &self.games[i];
            if rec.host_and_opp.1 == *opp {
                let found = SearchResults {
                    host_and_opp: (rec.host_and_opp.0.clone(), rec.host_and_opp.1.clone()),
                    state: rec.state.clone(),
                };
                proof {
                    assert(found@ == self@.games[i as int]);
                }
                out.push(found);
                proof {
                    assert(out@.map_values(|x: SearchResults| x@) =~= pre.push(
                        self@.games[i as int],
                    ));
                }
            }
            i += 1;
        }
        proof {
            assert(self@.games.take(self.games@.len() as int) =~= self@.games);
        }
        GamesByOppResponse { games: out }
    }

    /// The singleton session's outcome, absent until both moves are present.
    pub fn query_result(&self) -> (r: Result<ResultResponse, ContractError>)
        ensures
            match self@.state {
                None => r == Err::<ResultResponse, ContractError>(ContractError::NotFound),
                Some(s) => r matches Ok(x) && x.result == s.result,
            },
    {
        match &self.state {
            None => Err(ContractError::NotFound),
            Some(s) => Ok(ResultResponse { result: s.result }),
        }
    }

    /// Dispatches a mutating command: host reassignment is authorized by the
    /// current host, game start by the candidate session's host.
    pub fn execute(&mut self, caller: &Addr, msg: ExecuteMsg) -> (r: Result<(), ContractError>)
        requires
            old(self).wf(),
        ensures
            final(self).wf(),
            match msg {
                ExecuteMsg::ChangeHost { new_host } => {
                    &&& final(self)@.games == old(self)@.games
                    &&& (match old(self)@.state {
                        None => r == Err::<(), ContractError>(ContractError::NotFound)
                            && final(self)@ == old(self)@,
                        Some(s) => if caller@ != s.host {
                            r == Err::<(), ContractError>(ContractError::Unauthorized)
                                && final(self)@ == old(self)@
                        } else {
                            r == Ok::<(), ContractError>(()) && final(self)@.state == Some(
                                (StateV { host: new_host@, ..s }),
                            )
                        },
                    })
                },
                ExecuteMsg::StartGame { host_and_opp, state } => {
                    &&& final(self)@.state == old(self)@.state
                    &&& (if caller@ != state@.host {
                        r == Err::<(), ContractError>(ContractError::Unauthorized) && final(self)@
                            == old(self)@
                    } else {
                        r == Ok::<(), ContractError>(()) && final(self)@.games == upsert(
                            old(self)@.games,
                            (host_and_opp.0@, host_and_opp.1@),
                            state@,
                        )
                    })
                },
            },
    {
        match msg {
            ExecuteMsg::ChangeHost { new_host } => {
                match self.try_change_host(caller, new_host) {
                    Ok(_) => Ok(()),
                    Err(e) => Err(e),
                }
            },
            ExecuteMsg::StartGame { host_and_opp, state } => {
                self.try_start_game(caller, host_and_opp, state)
            },
        }
    }

    /// Dispatches a read-only query. Singleton reads fail with `NotFound`
    /// before initialization; indexed lookups always succeed, with an empty
    /// list when nothing matches.
    pub fn query(&self, msg: QueryMsg) -> (r: Result<QueryAnswer, ContractError>)
        ensures
            match msg {
                QueryMsg::GetHost {} => (match self@.state {
                    None => r == Err::<QueryAnswer, ContractError>(ContractError::NotFound),
                    Some(s) => r matches Ok(QueryAnswer::Host(h)) && h.host@ == s.host,
                }),
                QueryMsg::GetOpponent {} => (match self@.state {
                    None => r == Err::<QueryAnswer, ContractError>(ContractError::NotFound),
                    Some(s) => r matches Ok(QueryAnswer::Opponent(o)) && o.opponent@ == s.opponent,
                }),
                QueryMsg::GetHostMove {} => (match self@.state {
                    None => r == Err::<QueryAnswer, ContractError>(ContractError::NotFound),
                    Some(s) => r matches Ok(QueryAnswer::HostMove(m)) && m.host_move == s.host_move,
                }),
                QueryMsg::GetOpponentMove {} => (match self@.state {
                    None => r == Err::<QueryAnswer, ContractError>(ContractError::NotFound),
                    Some(s) => r matches Ok(QueryAnswer::OppMove(m)) && m.opp_move == s.opp_move,
                }),
                QueryMsg::GetResult {} => (match self@.state {
                    None => r == Err::<QueryAnswer, ContractError>(ContractError::NotFound),
                    Some(s) => r matches Ok(QueryAnswer::GameOutcome(x)) && x.result == s.result,
                }),
                QueryMsg::QueryGamesByHost { host } => (r matches Ok(QueryAnswer::GamesByHost(g))
                    && g.games@.map_values(|x: SearchResults| x@) == by_host(self@.games, host@)),
                QueryMsg::QueryGamesByOpp { opp } => (r matches Ok(QueryAnswer::GamesByOpp(g))
                    && g.games@.map_values(|x: SearchResults| x@) == by_opp(self@.games, opp@)),
            },
    {
        match msg {
            QueryMsg::GetHost {} => match self.query_host() {
                Ok(h) => Ok(QueryAnswer::Host(h)),
                Err(e) => Err(e),
            },
            QueryMsg::GetOpponent {} => match self.query_opponent() {
                Ok(o) => Ok(QueryAnswer::Opponent(o)),
                Err(e) => Err(e),
            },
            QueryMsg::GetHostMove {} => match self.query_host_move() {
                Ok(m) => Ok(QueryAnswer::HostMove(m)),
                Err(e) => Err(e),
            },
            QueryMsg::GetOpponentMove {} => match self.query_opponent_move() {
                Ok(m) => Ok(QueryAnswer::OppMove(m)),
                Err(e) => Err(e),
            },
            QueryMsg::GetResult {} => match self.query_result() {
                Ok(x) => Ok(QueryAnswer::GameOutcome(x)),
                Err(e) => Err(e),
            },
            QueryMsg::QueryGamesByHost { host } => Ok(
                QueryAnswer::GamesByHost(self.query_games_by_host(&host)),
            ),
            QueryMsg::QueryGamesByOpp { opp } => Ok(
                QueryAnswer::GamesByOpp(self.query_games_by_opp(&opp)),
            ),
        }
    }
}

/// Index round-trip: once a sorted store has taken a record for the pair
/// `(h, o)` with session `s`, a lookup by host `h` finds that very record,
/// and the pair's key holds exactly one record — a repeated store for the
/// same pair overwrites rather than duplicates.
pub proof fn lemma_index_round_trip(games: Seq<RecordV>, h: Seq<u8>, o: Seq<u8>, s: StateV)
    requires
        sorted(games),
    ensures
        by_host(upsert(games, (h, o), s), h).contains((RecordV { key: (h, o), state: s })),
        by_key(upsert(games, (h, o), s), (h, o)) == seq![(RecordV { key: (h, o), state: s })],
        sorted(upsert(games, (h, o), s)),
{
    let rec = RecordV { key: (h, o), state: s };
    let out = upsert(games, (h, o), s);
    lemma_upsert_props(games, (h, o), s);
    let i = choose|i: int| 0 <= i < out.len() && out[i] == rec;
    let pred = |r: RecordV| r.key.0 == h;
    assert(pred(out[i]));
    out.lemma_filter_contains(pred, i);
}

/// A host lookup over a key-sorted store yields records that all name the
/// queried host, each taken from the store, still in strictly ascending
/// compound-key order.
proof fn lemma_by_host_sorted(games: Seq<RecordV>, host: Seq<u8>)
    requires
        sorted(games),
    ensures
        sorted(by_host(games, host)),
        forall|i: int|
            0 <= i < by_host(games, host).len() ==> (#[trigger] by_host(games, host)[i]).key.0
                == host,
        forall|i: int|
            0 <= i < by_host(games, host).len() ==> games.contains(
                #[trigger] by_host(games, host)[i],
            ),
    decreases games.len(),
{
    reveal(Seq::filter);
    if games.len() > 0 {
        let head = games.drop_last();
        assert forall|m: int, n: int| 0 <= m < n < head.len() implies key_lt(
            (#[trigger] head[m]).key,
            (#[trigger] head[n]).key,
        ) by {
            assert(head[m] == games[m]);
            assert(head[n] == games[n]);
        }
        lemma_by_host_sorted(head, host);
        let sub = by_host(head, host);
        let out = by_host(games, host);
        assert forall|i: int| 0 <= i < out.len() implies games.contains(#[trigger] out[i]) by {
            if i < sub.len() {
                assert(head.contains(sub[i]));
                let m = choose|m: int| 0 <= m < head.len() && head[m] == sub[i];
                assert(games[m] == sub[i]);
            } else {
                assert(games[games.len() - 1] == games.last());
            }
        }
        if games.last().key.0 == host {
            assert(out == sub.push(games.last()));
            assert forall|m: int, n: int| 0 <= m < n < out.len() implies key_lt(
                (#[trigger] out[m]).key,
                (#[trigger] out[n]).key,
            ) by {
                if n < sub.len() {
                    assert(out[m] == sub[m]);
                    assert(out[n] == sub[n]);
                } else {
                    assert(out[n] == games.last());
                    assert(out[m] == sub[m]);
                    assert(head.contains(sub[m]));
                    let x = choose|x: int| 0 <= x < head.len() && head[x] == sub[m];
                    assert(head[x] == games[x]);
                    assert(key_lt(games[x].key, games[games.len() - 1].key));
                }
            }
        }
    }
}

/// Host-lookup ordering: over a key-sorted store, a lookup by host yields
/// its records in strictly ascending byte order of the opponent identifier.
pub proof fn lemma_by_host_ordered(games: Seq<RecordV>, host: Seq<u8>)
    requires
        sorted(games),
    ensures
        forall|m: int, n: int|
            #![trigger by_host(games, host)[m], by_host(games, host)[n]]
            0 <= m < n < by_host(games, host).len() ==> crate::addr::lex_lt(
                by_host(games, host)[m].key.1,
                by_host(games, host)[n].key.1,
            ),
{
    lemma_by_host_sorted(games, host);
    let out = by_host(games, host);
    assert forall|m: int, n: int| 0 <= m < n < out.len() implies crate::addr::lex_lt(
        (#[trigger] out[m]).key.1,
        (#[trigger] out[n]).key.1,
    ) by {
        assert(key_lt(out[m].key, out[n].key));
        crate::addr::lemma_lex_lt_trichotomy(out[m].key.0, out[n].key.0);
    }
}

/// Empty-query behavior: a host lookup over a store none of whose keys
/// names that host yields the empty sequence, not an error.
pub proof fn lemma_unknown_host_empty(games: Seq<RecordV>, host: Seq<u8>)
    requires
        forall|i: int| 0 <= i < games.len() ==> (#[trigger] games[i]).key.0 != host,
    ensures
        by_host(games, host) == Seq::<RecordV>::empty(),
    decreases games.len(),
{
    reveal(Seq::filter);
    if games.len() == 0 {
        assert(games =~= Seq::<RecordV>::empty());
    } else {
        assert(forall|i: int|
            0 <= i < games.drop_last().len() ==> (#[trigger] games.drop_last()[i]).key.0 != host)
            by {
            assert(forall|i: int|
                0 <= i < games.drop_last().len() ==> #[trigger] games.drop_last()[i] == games[i]);
        }
        lemma_unknown_host_empty(games.drop_last(), host);
        assert(games[games.len() - 1].key.0 != host);
    }
}

} // verus!
