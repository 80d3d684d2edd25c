//! The game center's routing: which gate server and which battle server
//! each player goes through, and how new battles are spread over the
//! battle servers.

use vstd::prelude::*;
use std::collections::HashMap;

verus! {

/// A battle server the center knows, by the token of its connection.
#[derive(Debug, Clone, Copy, PartialEq, Eq, Structural)]
pub struct BattleClient {
    pub token: usize,
    /// rooms running on it
    pub room_num: u32,
}

impl BattleClient {
    pub fn new(token: usize) -> (r: BattleClient)
        ensures
            r == (BattleClient { token, room_num: 0 }),
    {
        BattleClient { token, room_num: 0 }
    }
}

/// Why a lookup of the routes failed.
#[derive(Debug, Clone, Copy, PartialEq, Eq, Structural)]
pub enum RouteError {
    /// no server is recorded for the player
    NoRoute(u32),
    /// the server recorded for the player is not connected
    NoServer(usize),
}

/// The routing state of the game center.
pub struct GameCenterMgr {
    /// tokens of the connected gate servers
    pub gate_clients: Vec<usize>,
    /// the connected battle servers
    pub battle_clients: Vec<BattleClient>,
    /// which gate each player goes through
    pub user_w_gate: HashMap<u32, usize>,
    /// the battle server of each player
    pub user_w_battle: HashMap<u32, usize>,
}

/// `i` is the first battle server with the fewest rooms.
pub open spec fn least_loaded(cs: Seq<BattleClient>, i: int) -> bool {
    &&& 0 <= i < cs.len()
    &&& forall|j: int| 0 <= j < cs.len() ==> cs[i].room_num <= #[trigger] cs[j].room_num
    &&& forall|j: int| 0 <= j < i ==> cs[i].room_num < #[trigger] cs[j].room_num
}

/// `i` is the first battle server with token `token`.
pub open spec fn client_at(cs: Seq<BattleClient>, token: usize, i: int) -> bool {
    &&& 0 <= i < cs.len()
    &&& cs[i].token == token
    &&& forall|j: int| 0 <= j < i ==> #[trigger] cs[j].token != token
}

/// `m` with every player of `users` sent to `token`.
pub open spec fn assign_all(m: Map<u32, usize>, users: Seq<u32>, token: usize) -> Map<u32, usize>
    decreases users.len(),
{
    if users.len() == 0 {
        m
    } else {
        assign_all(m, users.drop_last(), token).insert(users.last(), token)
    }
}

fn battle_client_position(cs: &Vec<BattleClient>, token: usize) -> (r: Option<usize>)
    ensures
        r is None <==> forall|j: int| 0 <= j < cs@.len() ==> #[trigger] cs@[j].token != token,
        r matches Some(i) ==> client_at(cs@, token, i as int),
{
    let mut i: usize = 0;
    while i < cs.len()
        invariant
            i <= cs@.len(),
            forall|j: int| 0 <= j < i ==> #[trigger] cs@[j].token != token,
        decreases cs@.len() - i,
    {
        if cs[i].token == token {
            return Some(i);
        }
        i = i + 1;
    }
    None
}

impl GameCenterMgr {
    /// No server and no player.
    pub fn new() -> (r: GameCenterMgr)
        ensures
            r.gate_clients@.len() == 0,
            r.battle_clients@.len() == 0,
            r.user_w_gate@ == Map::<u32, usize>::empty(),
            r.user_w_battle@ == Map::<u32, usize>::empty(),
    {
        GameCenterMgr {
            gate_clients: Vec::new(),
            battle_clients: Vec::new(),
            user_w_gate: HashMap::new(),
            user_w_battle: HashMap::new(),
        }
    }

    /// A gate server connected.
    pub fn add_gate_client(&mut self, token: usize)
        ensures
            final(self).gate_clients@ == old(self).gate_clients@.push(token),
            final(self).battle_clients@ == old(self).battle_clients@,
            final(self).user_w_gate@ == old(self).user_w_gate@,
            final(self).user_w_battle@ == old(self).user_w_battle@,
    {
        self.gate_clients.push(token);
    }

    /// A battle server connected; it runs no room yet.
    pub fn add_battle_client(&mut self, token: usize)
        ensures
            final(self).battle_clients@ == old(self).battle_clients@.push(BattleClient { token, room_num: 0 }),
            final(self).gate_clients@ == old(self).gate_clients@,
            final(self).user_w_gate@ == old(self).user_w_gate@,
            final(self).user_w_battle@ == old(self).user_w_battle@,
    {
        self.battle_clients.push(BattleClient::new(token));
    }

    /// Records that player `user_id` goes through gate server `token`;
    /// nothing for user id 0.
    pub fn bound_user_w_gate(&mut self, user_id: u32, token: usize)
        ensures
            final(self).user_w_gate@ == if user_id == 0 {
                old(self).user_w_gate@
            } else {
                old(self).user_w_gate@.insert(user_id, token)
            },
            final(self).user_w_battle@ == old(self).user_w_battle@,
            final(self).gate_clients@ == old(self).gate_clients@,
            final(self).battle_clients@ == old(self).battle_clients@,
    {
        broadcast use vstd::std_specs::hash::group_hash_axioms;
        if user_id == 0 {
            return;
        }
        let bound = match self.user_w_gate.get(&user_id) {
            Some(t) => *t == token,
            None => false,
        };
        if !bound {
            self.user_w_gate.insert(user_id, token);
        } else {
            proof {
                assert(old(self).user_w_gate@.insert(user_id, token) =~= old(self).user_w_gate@);
            }
        }
    }

    /// A message of player `user_id` came in through gate server
    /// `gate_token`, where there is one: the player is bound to that gate.
    pub fn handler(&mut self, user_id: u32, gate_token: Option<usize>)
        ensures
            final(self).user_w_gate@ == match gate_token {
                Some(t) => if user_id > 0 { old(self).user_w_gate@.insert(user_id, t) } else { old(self).user_w_gate@ },
                None => old(self).user_w_gate@,
            },
            final(self).user_w_battle@ == old(self).user_w_battle@,
            final(self).gate_clients@ == old(self).gate_clients@,
            final(self).battle_clients@ == old(self).battle_clients@,
    {
        if user_id == 0 {
            return;
        }
        match gate_token {
            Some(t) => self.bound_user_w_gate(user_id, t),
            None => {},
        }
    }

    /// A battle of the players `members` starts: it goes to the first battle
    /// server with the fewest rooms, which runs one room more, and each
    /// player is routed to it. Returns its token; `None`, with nothing
    /// changed, where no battle server is connected.
    pub fn slb(&mut self, members: &Vec<u32>) -> (r: Option<usize>)
        requires
            forall|j: int| 0 <= j < old(self).battle_clients@.len() ==> #[trigger] old(self).battle_clients@[j].room_num < u32::MAX,
        ensures
            old(self).battle_clients@.len() == 0 ==> r is None && final(self).battle_clients@ == old(self).battle_clients@
                && final(self).user_w_battle@ == old(self).user_w_battle@,
            old(self).battle_clients@.len() > 0 ==> exists|i: int| #[trigger] least_loaded(old(self).battle_clients@, i) && {
                let c = old(self).battle_clients@[i];
                &&& r == Some(c.token)
                &&& final(self).battle_clients@ == old(self).battle_clients@.update(i, BattleClient { room_num: (c.room_num + 1) as u32, ..c })
                &&& final(self).user_w_battle@ == assign_all(old(self).user_w_battle@, members@, c.token)
            },
            final(self).user_w_gate@ == old(self).user_w_gate@,
            final(self).gate_clients@ == old(self).gate_clients@,
    {
        broadcast use vstd::std_specs::hash::group_hash_axioms;
        if self.battle_clients.len() == 0 {
            return None;
        }
        let mut best: usize = 0;
        let mut i: usize = 1;
        while i < self.battle_clients.len()
            invariant
                1 <= i <= self.battle_clients@.len(),
                self.battle_clients@ == old(self).battle_clients@,
                best < i,
                forall|j: int| 0 <= j < i ==> self.battle_clients@[best as int].room_num <= #[trigger] self.battle_clients@[j].room_num,
                forall|j: int| 0 <= j < best ==> self.battle_clients@[best as int].room_num < #[trigger] self.battle_clients@[j].room_num,
            decreases self.battle_clients@.len() - i,
        {
            if self.battle_clients[i].room_num < self.battle_clients[best].room_num {
                best = i;
            }
            i = i + 1;
        }
        assert(least_loaded(old(self).battle_clients@, best as int));
        let token = self.battle_clients[best].token;
        let mut k: usize = 0;
        while k < members.len()
            invariant
                k <= members@.len(),
                self.battle_clients@ == old(self).battle_clients@,
                self.user_w_gate@ == old(self).user_w_gate@,
                self.gate_clients@ == old(self).gate_clients@,
                self.user_w_battle@ == assign_all(old(self).user_w_battle@, members@.take(k as int), token),
            decreases members@.len() - k,
        {
            proof {
                assert(members@.take(k + 1).drop_last() =~= members@.take(k as int));
            }
            self.user_w_battle.insert(members[k], token);
            k = k + 1;
        }
        proof {
            assert(members@.take(members@.len() as int) =~= members@);
        }
        let n = self.battle_clients[best].room_num + 1;
        self.battle_clients.set(best, BattleClient { token, room_num: n });
        Some(token)
    }

    /// Player `user_id` leaves the servers (where `cmd` is the unload
    /// command `unload_cmd`): both of its routes are forgotten.
    pub fn user_leave(&mut self, cmd: u32, user_id: u32, unload_cmd: u32)
        ensures
            cmd == unload_cmd ==> final(self).user_w_battle@ == old(self).user_w_battle@.remove(user_id)
                && final(self).user_w_gate@ == old(self).user_w_gate@.remove(user_id),
            cmd != unload_cmd ==> final(self).user_w_battle@ == old(self).user_w_battle@
                && final(self).user_w_gate@ == old(self).user_w_gate@,
            final(self).gate_clients@ == old(self).gate_clients@,
            final(self).battle_clients@ == old(self).battle_clients@,
    {
        broadcast use vstd::std_specs::hash::group_hash_axioms;
        if cmd == unload_cmd {
            self.user_w_battle.remove(&user_id);
            self.user_w_gate.remove(&user_id);
        }
    }

    /// A battle ended (where `cmd` is the summary command `summary_cmd`) on
    /// battle server `battle_token`: it runs one room fewer, never below 0.
    pub fn slb_back(&mut self, cmd: u32, battle_token: Option<usize>, summary_cmd: u32)
        ensures
            cmd != summary_cmd || battle_token is None ==> final(self).battle_clients@ == old(self).battle_clients@,
            cmd == summary_cmd ==> (battle_token matches Some(t) ==> match battle_client_index(old(self).battle_clients@, t) {
                Some(i) => {
                    let c = old(self).battle_clients@[i];
                    final(self).battle_clients@ == if c.room_num > 0 {
                        old(self).battle_clients@.update(i, BattleClient { room_num: (c.room_num - 1) as u32, ..c })
                    } else {
                        old(self).battle_clients@
                    }
                },
                None => final(self).battle_clients@ == old(self).battle_clients@,
            }),
            final(self).user_w_gate@ == old(self).user_w_gate@,
            final(self).user_w_battle@ == old(self).user_w_battle@,
            final(self).gate_clients@ == old(self).gate_clients@,
    {
        if cmd != summary_cmd {
            return;
        }
        let t = match battle_token {
            Some(t) => t,
            None => return,
        };
        match battle_client_position(&self.battle_clients, t) {
            Some(i) => {
                proof {
                    lemma_client_index(old(self).battle_clients@, t, i as int);
                }
                let c = self.battle_clients[i];
                if c.room_num > 0 {
                    self.battle_clients.set(i, BattleClient { token: c.token, room_num: c.room_num - 1 });
                }
            },
            None => {
                proof {
                    lemma_client_index_none(old(self).battle_clients@, t);
                }
            },
        }
    }

    /// Looks up where player `user_id` entered.
    pub fn get_gate_client(&self, user_id: u32) -> (r: Result<usize, RouteError>)
        ensures
            !self.user_w_gate@.contains_key(user_id) ==> r == Err::<usize, RouteError>(RouteError::NoRoute(user_id)),
            self.user_w_gate@.contains_key(user_id) ==> {
                let t = self.user_w_gate@[user_id];
                if self.gate_clients@.contains(t) {
                    r == Ok::<usize, RouteError>(t)
                } else {
                    r == Err::<usize, RouteError>(RouteError::NoServer(t))
                }
            },
    {
        broadcast use vstd::std_specs::hash::group_hash_axioms;
        let t = match self.user_w_gate.get(&user_id) {
            Some(t) => *t,
            None => return Err(RouteError::NoRoute(user_id)),
        };
        let mut i: usize = 0;
        while i < self.gate_clients.len()
            invariant
                i <= self.gate_clients@.len(),
                self.user_w_gate@.contains_key(user_id),
                self.user_w_gate@[user_id] == t,
                forall|j: int| 0 <= j < i ==> #[trigger] self.gate_clients@[j] != t,
            decreases self.gate_clients@.len() - i,
        {
            if self.gate_clients[i] == t {
                assert(self.gate_clients@[i as int] == t);
                return Ok(t);
            }
            i = i + 1;
        }
        proof {
            if self.gate_clients@.contains(t) {
                let j = choose|j: int| 0 <= j < self.gate_clients@.len() && self.gate_clients@[j] == t;
                assert(self.gate_clients@[j] != t);
            }
        }
        Err(RouteError::NoServer(t))
    }

    /// The battle server of player `user_id`.
    pub fn get_battle_client(&self, user_id: u32) -> (r: Result<BattleClient, RouteError>)
        ensures
            !self.user_w_battle@.contains_key(user_id) ==> r == Err::<BattleClient, RouteError>(RouteError::NoRoute(user_id)),
            self.user_w_battle@.contains_key(user_id) ==> {
                let t = self.user_w_battle@[user_id];
                match battle_client_index(self.battle_clients@, t) {
                    Some(i) => r == Ok::<BattleClient, RouteError>(self.battle_clients@[i]),
                    None => r == Err::<BattleClient, RouteError>(RouteError::NoServer(t)),
                }
            },
    {
        broadcast use vstd::std_specs::hash::group_hash_axioms;
        let t = match self.user_w_battle.get(&user_id) {
            Some(t) => *t,
            None => return Err(RouteError::NoRoute(user_id)),
        };
        match battle_client_position(&self.battle_clients, t) {
            Some(i) => {
                proof {
                    lemma_client_index(self.battle_clients@, t, i as int);
                }
                Ok(self.battle_clients[i])
            },
            None => {
                proof {
                    lemma_client_index_none(self.battle_clients@, t);
                }
                Err(RouteError::NoServer(t))
            },
        }
    }
}

/// The position of the first battle server with token `token`, if any.
pub open spec fn battle_client_index(cs: Seq<BattleClient>, token: usize) -> Option<int> {
    if exists|i: int| #[trigger] client_at(cs, token, i) {
        Some(choose|i: int| #[trigger] client_at(cs, token, i))
    } else {
        None
    }
}

proof fn lemma_client_index(cs: Seq<BattleClient>, token: usize, i: int)
    requires
        client_at(cs, token, i),
    ensures
        battle_client_index(cs, token) == Some(i),
{
    let k = choose|k: int| #[trigger] client_at(cs, token, k);
    if k < i {
        assert(cs[k].token != token);
    } else if i < k {
        assert(cs[i].token != token);
    }
}

proof fn lemma_client_index_none(cs: Seq<BattleClient>, token: usize)
    requires
        forall|j: int| 0 <= j < cs.len() ==> #[trigger] cs[j].token != token,
    ensures
        battle_client_index(cs, token) is None,
{
    if exists|i: int| #[trigger] client_at(cs, token, i) {
        let i = choose|i: int| #[trigger] client_at(cs, token, i);
        assert(cs[i].token != token);
    }
}

/// What is bound is what is looked up: after a player is bound to a gate
/// server, the player's gate is that server, and the gates of the other
/// players do not change; after the player leaves, it has none.
pub proof fn law_gate_route_read_after_write(m: Map<u32, usize>, user_id: u32, other: u32, token: usize)
    requires
        user_id != 0,
    ensures
        m.insert(user_id, token).contains_key(user_id) && m.insert(user_id, token)[user_id] == token,
        other != user_id ==> (m.insert(user_id, token).contains_key(other) == m.contains_key(other)),
        other != user_id && m.contains_key(other) ==> m.insert(user_id, token)[other] == m[other],
        !m.remove(user_id).contains_key(user_id),
{
}

/// Every player of a battle that starts is routed to the battle server
/// chosen for it.
pub proof fn law_slb_routes_every_member(m: Map<u32, usize>, users: Seq<u32>, token: usize, k: int)
    requires
        0 <= k < users.len(),
    ensures
        assign_all(m, users, token).contains_key(users[k]),
        assign_all(m, users, token)[users[k]] == token,
    decreases users.len(),
{
    if k < users.len() - 1 {
        law_slb_routes_every_member(m, users.drop_last(), token, k);
        assert(users.drop_last()[k] == users[k]);
    }
}

} // verus!
