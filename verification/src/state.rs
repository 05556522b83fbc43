//! The state that all sessions share.
//!
//! Three maps: the directory of connected clients by address, the group index
//! from matchmaking options to the addresses in that group (in the order in
//! which they joined), and the membership map from an address to the options
//! that index it. The group index and the membership map mirror each other,
//! and no group is empty.

use vstd::pervasive::unreached;
use vstd::prelude::*;

use crate::address::PeerAddr;
use crate::assoc::{
    as_map, distinct_keys, index_of_key, lemma_entry, lemma_key_has_entry, lemma_len,
    lemma_no_entry, lemma_push, lemma_remove, lemma_update,
};
use crate::client::Client;
use crate::math::vector2::{lemma_y_level_range, levels_nearby, y_level, NEARBY_LEVELS};
use crate::math::Vector2;

verus! {

/// What a player asks of matchmaking: players with the same password on the
/// same level are one group.
#[derive(Debug, PartialEq, Eq, Hash)]
pub struct MatchmakingOptions {
    pub password: Option<String>,
    pub level_name: String,
}

/// Matchmaking options as plain values. No password and an empty password
/// are different options.
pub struct MatchmakingOptionsView {
    pub password: Option<Seq<char>>,
    pub level_name: Seq<char>,
}

impl View for MatchmakingOptions {
    type V = MatchmakingOptionsView;

    open spec fn view(&self) -> MatchmakingOptionsView {
        MatchmakingOptionsView {
            password: self.password.deep_view(),
            level_name: self.level_name@,
        }
    }
}

impl Clone for MatchmakingOptions {
    fn clone(&self) -> (copy: Self)
        ensures
            copy == *self,
    {
        let password: Option<String> = match &self.password {
            Some(password) => Some(password.clone()),
            None => None,
        };
        MatchmakingOptions { password, level_name: self.level_name.clone() }
    }
}

impl MatchmakingOptions {
    /// Options with this password on this level.
    pub fn new(password: Option<String>, level_name: String) -> (options: Self)
        ensures
            options.password == password,
            options.level_name == level_name,
    {
        Self { password, level_name }
    }

    /// Whether both fields are equal.
    pub fn same_as(&self, other: &MatchmakingOptions) -> (same: bool)
        ensures
            same == (self@ == other@),
    {
        let same_password: bool = match (&self.password, &other.password) {
            (Some(a), Some(b)) => *a == *b,
            (None, None) => true,
            _ => false,
        };
        same_password && self.level_name == other.level_name
    }
}

/// The list without its entries equal to `a`.
pub open spec fn without(s: Seq<PeerAddr>, a: PeerAddr) -> Seq<PeerAddr>
    decreases s.len(),
{
    if s.len() == 0 {
        s
    } else if s.last() == a {
        without(s.drop_last(), a)
    } else {
        without(s.drop_last(), a).push(s.last())
    }
}

/// How many entries of the list are `a`.
pub open spec fn occurrences(s: Seq<PeerAddr>, a: PeerAddr) -> nat
    decreases s.len(),
{
    if s.len() == 0 {
        0
    } else if s.last() == a {
        occurrences(s.drop_last(), a) + 1
    } else {
        occurrences(s.drop_last(), a)
    }
}

/// An entry of a list without duplicates occurs in it once, and what is no
/// entry occurs in no list.
pub proof fn lemma_occurrences(s: Seq<PeerAddr>, a: PeerAddr)
    ensures
        !s.contains(a) ==> occurrences(s, a) == 0,
        s.no_duplicates() && s.contains(a) ==> occurrences(s, a) == 1,
    decreases s.len(),
{
    if s.len() > 0 {
        let front = s.drop_last();
        lemma_occurrences(front, a);
        if front.contains(a) {
            let i = choose|i: int| 0 <= i < front.len() && front[i] == a;
            assert(s[i] == a);
        }
        if s.last() == a {
            assert(s[s.len() - 1] == a);
        }
        if s.no_duplicates() {
            assert forall|i: int, j: int|
                0 <= i < front.len() && 0 <= j < front.len() && i != j implies front[i]
                != front[j] by {
                assert(front[i] == s[i] && front[j] == s[j]);
            }
            if s.last() == a && front.contains(a) {
                let i = choose|i: int| 0 <= i < front.len() && front[i] == a;
                assert(s[i] == s[s.len() - 1]);
            }
        }
        if s.contains(a) && s.last() != a {
            let i = choose|i: int| 0 <= i < s.len() && s[i] == a;
            assert(front[i] == a);
        }
    }
}

/// The group index and the membership map mirror each other: an address
/// that the membership map indexes under some options is in the group of
/// those options, every member of a group is indexed under the options
/// of the group, no address is twice in a group, and no group is empty.
pub open spec fn mirrored(
    groups: Map<MatchmakingOptionsView, Seq<PeerAddr>>,
    membership: Map<PeerAddr, MatchmakingOptionsView>,
) -> bool {
    &&& forall|a: PeerAddr| #[trigger]
        membership.contains_key(a) ==> groups.contains_key(membership[a])
            && groups[membership[a]].contains(a)
    &&& forall|o: MatchmakingOptionsView, i: int|
        groups.contains_key(o) && 0 <= i < groups[o].len() ==> membership.contains_key(
            #[trigger] groups[o][i],
        ) && membership[groups[o][i]] == o
    &&& forall|o: MatchmakingOptionsView| #[trigger]
        groups.contains_key(o) ==> groups[o].no_duplicates() && groups[o].len() > 0
}

/// Whether setting the options of `address` to `new` changes nothing.
pub open spec fn options_unchanged(
    membership: Map<PeerAddr, MatchmakingOptionsView>,
    address: PeerAddr,
    new: Option<MatchmakingOptionsView>,
) -> bool {
    match new {
        Some(o) => membership.contains_key(address) && membership[address] == o,
        None => !membership.contains_key(address),
    }
}

/// The group index after `address` has left the group that it is indexed
/// under, if any. A group that loses its last member is deleted.
pub open spec fn groups_after_leave(
    groups: Map<MatchmakingOptionsView, Seq<PeerAddr>>,
    membership: Map<PeerAddr, MatchmakingOptionsView>,
    address: PeerAddr,
) -> Map<MatchmakingOptionsView, Seq<PeerAddr>> {
    if membership.contains_key(address) && groups.contains_key(membership[address]) {
        let o = membership[address];
        let rest = without(groups[o], address);
        if rest.len() == 0 {
            groups.remove(o)
        } else {
            groups.insert(o, rest)
        }
    } else {
        groups
    }
}

/// The group index after `address` has joined the group of `o` as its last
/// member. A group that does not exist is created.
pub open spec fn groups_after_join(
    groups: Map<MatchmakingOptionsView, Seq<PeerAddr>>,
    o: MatchmakingOptionsView,
    address: PeerAddr,
) -> Map<MatchmakingOptionsView, Seq<PeerAddr>> {
    let members = if groups.contains_key(o) {
        groups[o]
    } else {
        Seq::empty()
    };
    groups.insert(o, members.push(address))
}

/// The group index after the options of `address` have been set to `new`.
pub open spec fn groups_after_set(
    groups: Map<MatchmakingOptionsView, Seq<PeerAddr>>,
    membership: Map<PeerAddr, MatchmakingOptionsView>,
    address: PeerAddr,
    new: Option<MatchmakingOptionsView>,
) -> Map<MatchmakingOptionsView, Seq<PeerAddr>> {
    if options_unchanged(membership, address, new) {
        groups
    } else {
        let left = groups_after_leave(groups, membership, address);
        match new {
            Some(o) => groups_after_join(left, o, address),
            None => left,
        }
    }
}

/// The membership map after the options of `address` have been set to `new`.
pub open spec fn membership_after_set(
    membership: Map<PeerAddr, MatchmakingOptionsView>,
    address: PeerAddr,
    new: Option<MatchmakingOptionsView>,
) -> Map<PeerAddr, MatchmakingOptionsView> {
    match new {
        Some(o) => membership.insert(address, o),
        None => membership.remove(address),
    }
}

/// What dropping the entries equal to `a` does to a list: `a` is gone, every
/// other entry stays, a list without duplicates stays one and loses at most
/// one entry, and a list without `a` stays as it is.
pub proof fn lemma_without(s: Seq<PeerAddr>, a: PeerAddr)
    ensures
        !without(s, a).contains(a),
        forall|x: PeerAddr| x != a ==> (without(s, a).contains(x) <==> s.contains(x)),
        s.no_duplicates() ==> without(s, a).no_duplicates(),
        without(s, a).len() <= s.len(),
        s.no_duplicates() && s.contains(a) ==> without(s, a).len() == s.len() - 1,
        !s.contains(a) ==> without(s, a) == s,
    decreases s.len(),
{
    if s.len() > 0 {
        let front = s.drop_last();
        let last = s.last();
        lemma_without(front, a);
        let w = without(s, a);
        let wf = without(front, a);
        assert forall|x: PeerAddr| x != a implies (w.contains(x) <==> s.contains(x)) by {
            if s.contains(x) {
                let i = choose|i: int| 0 <= i < s.len() && s[i] == x;
                if i < front.len() {
                    assert(front[i] == x);
                    assert(front.contains(x));
                    assert(wf.contains(x));
                    let j = choose|j: int| 0 <= j < wf.len() && wf[j] == x;
                    assert(w[j] == x);
                } else {
                    assert(w.last() == x);
                }
            }
            if w.contains(x) {
                let j = choose|j: int| 0 <= j < w.len() && w[j] == x;
                if j < wf.len() {
                    assert(wf[j] == x);
                    assert(front.contains(x));
                    let i = choose|i: int| 0 <= i < front.len() && front[i] == x;
                    assert(s[i] == x);
                } else {
                    assert(s[s.len() - 1] == x);
                }
            }
        }
        if w.contains(a) {
            let j = choose|j: int| 0 <= j < w.len() && w[j] == a;
            if j < wf.len() {
                assert(wf[j] == a);
            }
        }
        if s.no_duplicates() {
            assert(front.no_duplicates()) by {
                assert forall|i: int, j: int|
                    0 <= i < front.len() && 0 <= j < front.len() && i != j implies front[i]
                    != front[j] by {
                    assert(front[i] == s[i] && front[j] == s[j]);
                }
            }
            if last != a {
                assert(!front.contains(last)) by {
                    if front.contains(last) {
                        let i = choose|i: int| 0 <= i < front.len() && front[i] == last;
                        assert(s[i] == s[s.len() - 1]);
                    }
                }
                assert(w.no_duplicates()) by {
                    assert forall|i: int, j: int|
                        0 <= i < w.len() && 0 <= j < w.len() && i != j implies w[i] != w[j] by {
                        if i < wf.len() && j < wf.len() {
                            assert(w[i] == wf[i] && w[j] == wf[j]);
                        } else if i < wf.len() {
                            assert(wf[i] == w[i]);
                            assert(wf.contains(w[i]));
                        } else {
                            assert(wf[j] == w[j]);
                            assert(wf.contains(w[j]));
                        }
                    }
                }
            }
            if s.contains(a) {
                if last == a {
                    assert(!front.contains(a)) by {
                        if front.contains(a) {
                            let i = choose|i: int| 0 <= i < front.len() && front[i] == a;
                            assert(s[i] == s[s.len() - 1]);
                        }
                    }
                } else {
                    let i = choose|i: int| 0 <= i < s.len() && s[i] == a;
                    assert(front[i] == a);
                }
            }
        }
        if !s.contains(a) {
            assert(!front.contains(a)) by {
                if front.contains(a) {
                    let i = choose|i: int| 0 <= i < front.len() && front[i] == a;
                    assert(s[i] == a);
                }
            }
            assert(last != a) by {
                assert(s[s.len() - 1] == last);
            }
            assert(w =~= s);
        }
    }
}

/// Leaving keeps the two maps mirrored, once the address is taken out of the
/// membership map or indexed anew.
pub proof fn lemma_leave_mirrored(
    groups: Map<MatchmakingOptionsView, Seq<PeerAddr>>,
    membership: Map<PeerAddr, MatchmakingOptionsView>,
    address: PeerAddr,
)
    requires
        mirrored(groups, membership),
    ensures
        mirrored(groups_after_leave(groups, membership, address), membership.remove(address)),
{
    let g = groups_after_leave(groups, membership, address);
    let m = membership.remove(address);
    if membership.contains_key(address) {
        let o = membership[address];
        let rest = without(groups[o], address);
        lemma_without(groups[o], address);
        assert forall|a: PeerAddr| #[trigger] m.contains_key(a) implies g.contains_key(m[a])
            && g[m[a]].contains(a) by {
            assert(membership.contains_key(a));
            if m[a] == o {
                assert(rest.contains(a));
            }
        }
        assert forall|p: MatchmakingOptionsView, i: int|
            g.contains_key(p) && 0 <= i < g[p].len() implies m.contains_key(#[trigger] g[p][i])
            && m[g[p][i]] == p by {
            if p == o {
                assert(rest.contains(rest[i]));
                assert(groups[o].contains(rest[i]));
                let j = choose|j: int| 0 <= j < groups[o].len() && groups[o][j] == rest[i];
                assert(membership.contains_key(groups[o][j]));
            } else {
                assert(membership.contains_key(groups[p][i]));
                if groups[p][i] == address {
                    assert(membership[groups[p][i]] == p);
                }
            }
        }
        assert forall|p: MatchmakingOptionsView| #[trigger] g.contains_key(p) implies g[p]
            .no_duplicates() && g[p].len() > 0 by {
            if p != o {
                assert(groups.contains_key(p));
            }
        }
    } else {
        assert(m =~= membership);
    }
}

/// Joining a group keeps the two maps mirrored, for an address that is in no
/// group.
pub proof fn lemma_join_mirrored(
    groups: Map<MatchmakingOptionsView, Seq<PeerAddr>>,
    membership: Map<PeerAddr, MatchmakingOptionsView>,
    o: MatchmakingOptionsView,
    address: PeerAddr,
)
    requires
        mirrored(groups, membership),
        !membership.contains_key(address),
    ensures
        mirrored(groups_after_join(groups, o, address), membership.insert(address, o)),
{
    let g = groups_after_join(groups, o, address);
    let m = membership.insert(address, o);
    let before = if groups.contains_key(o) {
        groups[o]
    } else {
        Seq::empty()
    };
    let after = before.push(address);
    assert(!before.contains(address)) by {
        if before.contains(address) {
            let i = choose|i: int| 0 <= i < before.len() && before[i] == address;
            assert(membership.contains_key(groups[o][i]));
        }
    }
    assert forall|a: PeerAddr| #[trigger] m.contains_key(a) implies g.contains_key(m[a]) && g[m[a]]
        .contains(a) by {
        if a == address {
            assert(after[after.len() - 1] == address);
        } else {
            assert(membership.contains_key(a));
            if m[a] == o {
                let i = choose|i: int| 0 <= i < before.len() && before[i] == a;
                assert(after[i] == a);
            }
        }
    }
    assert forall|p: MatchmakingOptionsView, i: int|
        g.contains_key(p) && 0 <= i < g[p].len() implies m.contains_key(#[trigger] g[p][i]) && m[g[p][i]]
        == p by {
        if p == o {
            if i < before.len() {
                assert(after[i] == before[i]);
                assert(membership.contains_key(groups[o][i]));
            }
        } else {
            assert(membership.contains_key(groups[p][i]));
        }
    }
    assert forall|p: MatchmakingOptionsView| #[trigger] g.contains_key(p) implies g[p]
        .no_duplicates() && g[p].len() > 0 by {
        if p == o {
            assert forall|i: int, j: int|
                0 <= i < after.len() && 0 <= j < after.len() && i != j implies after[i]
                != after[j] by {
                if i < before.len() && j < before.len() {
                    assert(after[i] == before[i] && after[j] == before[j]);
                } else if i < before.len() {
                    assert(before[i] == after[i]);
                    assert(before.contains(after[i]));
                } else {
                    assert(before[j] == after[j]);
                    assert(before.contains(after[j]));
                }
            }
        } else {
            assert(groups.contains_key(p));
        }
    }
}

/// Setting the options of an address keeps the two maps mirrored.
pub proof fn lemma_set_mirrored(
    groups: Map<MatchmakingOptionsView, Seq<PeerAddr>>,
    membership: Map<PeerAddr, MatchmakingOptionsView>,
    address: PeerAddr,
    new: Option<MatchmakingOptionsView>,
)
    requires
        mirrored(groups, membership),
    ensures
        mirrored(
            groups_after_set(groups, membership, address, new),
            membership_after_set(membership, address, new),
        ),
{
    if options_unchanged(membership, address, new) {
        assert(membership_after_set(membership, address, new) =~= membership);
    } else {
        lemma_leave_mirrored(groups, membership, address);
        match new {
            Some(o) => {
                lemma_join_mirrored(
                    groups_after_leave(groups, membership, address),
                    membership.remove(address),
                    o,
                    address,
                );
                assert(membership.remove(address).insert(address, o) =~= membership.insert(
                    address,
                    o,
                ));
            },
            None => {},
        }
    }
}

/// A client in the directory.
struct ClientEntry {
    address: PeerAddr,
    client: Client,
}

/// A group in the group index: its options and its members, in the order in
/// which they joined.
struct Group {
    options: MatchmakingOptions,
    members: Vec<PeerAddr>,
}

/// An entry of the membership map.
struct Membership {
    address: PeerAddr,
    options: MatchmakingOptions,
}

/// The state that all sessions share. Each of its three maps is kept as a
/// list in which no key occurs twice.
pub struct State {
    clients: Vec<ClientEntry>,
    matchmaking_map: Vec<Group>,
    client_matchmaking_map: Vec<Membership>,
}

/// The directory list as pairs of address and client.
spec fn client_pairs(s: Seq<ClientEntry>) -> Seq<(PeerAddr, Client)> {
    Seq::new(s.len(), |i: int| (s[i].address, s[i].client))
}

/// The group list as pairs of options and members.
spec fn group_pairs(s: Seq<Group>) -> Seq<(MatchmakingOptionsView, Seq<PeerAddr>)> {
    Seq::new(s.len(), |i: int| (s[i].options@, s[i].members@))
}

/// The membership list as pairs of address and options.
spec fn membership_pairs(s: Seq<Membership>) -> Seq<(PeerAddr, MatchmakingOptionsView)> {
    Seq::new(s.len(), |i: int| (s[i].address, s[i].options@))
}

/// The number of members of all the groups of a list together.
spec fn member_total(s: Seq<Group>) -> nat
    decreases s.len(),
{
    if s.len() == 0 {
        0
    } else {
        member_total(s.drop_last()) + s.last().members@.len()
    }
}

proof fn lemma_member_total_push(s: Seq<Group>, g: Group)
    ensures
        member_total(s.push(g)) == member_total(s) + g.members@.len(),
{
    assert(s.push(g).drop_last() =~= s);
}

proof fn lemma_member_total_remove(s: Seq<Group>, i: int)
    requires
        0 <= i < s.len(),
    ensures
        member_total(s.remove(i)) == member_total(s) - s[i].members@.len(),
    decreases s.len(),
{
    if i == s.len() - 1 {
        assert(s.remove(i) =~= s.drop_last());
    } else {
        lemma_member_total_remove(s.drop_last(), i);
        assert(s.remove(i).drop_last() =~= s.drop_last().remove(i));
        assert(s.remove(i).last() == s.last());
    }
}

impl Default for State {
    /// An empty state.
    fn default() -> (state: Self)
        ensures
            state.wf(),
            state.directory() == Map::<PeerAddr, Client>::empty(),
            state.group_index() == Map::<MatchmakingOptionsView, Seq<PeerAddr>>::empty(),
            state.membership() == Map::<PeerAddr, MatchmakingOptionsView>::empty(),
            state.addresses() == Seq::<PeerAddr>::empty(),
    {
        State::new()
    }
}

/// The clients that a list of references points to.
pub open spec fn dereferenced(clients: Seq<&Client>) -> Seq<Client> {
    Seq::new(clients.len(), |i: int| *clients[i])
}

/// Of `clients`, those within `NEARBY_LEVELS` levels of `position`, in
/// their order.
pub open spec fn nearby_clients(position: Vector2, clients: Seq<Client>) -> Seq<Client> {
    clients.filter(|c: Client| levels_nearby(position.y, c.position.y))
}

/// Options that may be absent, as plain values.
pub open spec fn options_view(options: Option<MatchmakingOptions>) -> Option<
    MatchmakingOptionsView,
> {
    match options {
        Some(o) => Some(o@),
        None => None,
    }
}

/// Keeps the members that are not `address`, in their order.
fn retain_others(members: &Vec<PeerAddr>, address: &PeerAddr) -> (rest: Vec<PeerAddr>)
    ensures
        rest@ == without(members@, *address),
{
    let mut rest: Vec<PeerAddr> = Vec::new();
    let mut i: usize = 0;
    assert(members@.take(0) =~= Seq::<PeerAddr>::empty());
    while i < members.len()
        invariant
            i <= members@.len(),
            rest@ == without(members@.take(i as int), *address),
        decreases members@.len() - i,
    {
        let member: PeerAddr = members[i];
        proof {
            let next = members@.take(i + 1);
            assert(next.drop_last() =~= members@.take(i as int));
            assert(next.last() == member);
        }
        if member != *address {
            rest.push(member);
        }
        i = i + 1;
    }
    assert(members@.take(i as int) =~= members@);
    rest
}

impl State {
    /// The directory: the client at each connected address.
    pub closed spec fn directory(&self) -> Map<PeerAddr, Client> {
        as_map(client_pairs(self.clients@))
    }

    /// The connected addresses, in the order in which the directory is
    /// walked.
    pub closed spec fn addresses(&self) -> Seq<PeerAddr> {
        Seq::new(self.clients@.len(), |i: int| self.clients@[i].address)
    }

    /// The group index: the members of each group, in the order in which
    /// they joined.
    pub closed spec fn group_index(&self) -> Map<MatchmakingOptionsView, Seq<PeerAddr>> {
        as_map(group_pairs(self.matchmaking_map@))
    }

    /// The membership map: the options that each address is indexed under.
    pub closed spec fn membership(&self) -> Map<PeerAddr, MatchmakingOptionsView> {
        as_map(membership_pairs(self.client_matchmaking_map@))
    }

    /// The lists are maps (no key occurs twice), and the groups together
    /// have as many members as the membership map has entries.
    pub closed spec fn lists_ok(&self) -> bool {
        &&& distinct_keys(client_pairs(self.clients@))
        &&& distinct_keys(group_pairs(self.matchmaking_map@))
        &&& distinct_keys(membership_pairs(self.client_matchmaking_map@))
        &&& member_total(self.matchmaking_map@) == self.client_matchmaking_map@.len()
    }

    /// The group index and the membership map are valid and mirror each
    /// other.
    pub open spec fn index_wf(&self) -> bool {
        &&& self.lists_ok()
        &&& mirrored(self.group_index(), self.membership())
    }

    /// The whole state is valid: the index is, and exactly the connected
    /// addresses are indexed.
    pub open spec fn wf(&self) -> bool {
        &&& self.index_wf()
        &&& self.directory().dom() == self.membership().dom()
    }

    /// The clients of a group, in the order in which they joined it.
    pub open spec fn group_clients(&self, o: MatchmakingOptionsView) -> Seq<Client> {
        Seq::new(
            self.group_index()[o].len(),
            |i: int| self.directory()[self.group_index()[o][i]],
        )
    }

    /// The number of members of the group of `o`; 0 where there is no such
    /// group.
    pub open spec fn group_size(&self, o: MatchmakingOptionsView) -> nat {
        if self.group_index().contains_key(o) {
            self.group_index()[o].len()
        } else {
            0
        }
    }

    /// All connected clients, in the order of `addresses`.
    pub open spec fn all_clients(&self) -> Seq<Client> {
        Seq::new(self.addresses().len(), |i: int| self.directory()[self.addresses()[i]])
    }

    /// An empty state: nobody is connected, and there are no groups.
    pub fn new() -> (state: Self)
        ensures
            state.wf(),
            state.directory() == Map::<PeerAddr, Client>::empty(),
            state.group_index() == Map::<MatchmakingOptionsView, Seq<PeerAddr>>::empty(),
            state.membership() == Map::<PeerAddr, MatchmakingOptionsView>::empty(),
            state.addresses() == Seq::<PeerAddr>::empty(),
    {
        let state = Self {
            clients: Vec::new(),
            matchmaking_map: Vec::new(),
            client_matchmaking_map: Vec::new(),
        };
        assert(state.directory() =~= Map::<PeerAddr, Client>::empty());
        assert(state.group_index() =~= Map::<MatchmakingOptionsView, Seq<PeerAddr>>::empty());
        assert(state.membership() =~= Map::<PeerAddr, MatchmakingOptionsView>::empty());
        assert(state.addresses() =~= Seq::<PeerAddr>::empty());
        state
    }

    fn find_client(&self, address: &PeerAddr) -> (found: Option<usize>)
        ensures
            match found {
                Some(i) => i < self.clients@.len() && self.clients@[i as int].address == *address,
                None => forall|i: int|
                    0 <= i < self.clients@.len() ==> (#[trigger] self.clients@[i]).address
                        != *address,
            },
    {
        let mut i: usize = 0;
        while i < self.clients.len()
            invariant
                i <= self.clients@.len(),
                forall|j: int| 0 <= j < i ==> (#[trigger] self.clients@[j]).address != *address,
            decreases self.clients@.len() - i,
        {
            if self.clients[i].address == *address {
                return Some(i);
            }
            i = i + 1;
        }
        None
    }

    fn find_group(&self, options: &MatchmakingOptions) -> (found: Option<usize>)
        ensures
            match found {
                Some(i) => i < self.matchmaking_map@.len() && self.matchmaking_map@[i as int].options@
                    == options@,
                None => forall|i: int|
                    0 <= i < self.matchmaking_map@.len() ==> (
                    #[trigger] self.matchmaking_map@[i]).options@ != options@,
            },
    {
        let mut i: usize = 0;
        while i < self.matchmaking_map.len()
            invariant
                i <= self.matchmaking_map@.len(),
                forall|j: int|
                    0 <= j < i ==> (#[trigger] self.matchmaking_map@[j]).options@ != options@,
            decreases self.matchmaking_map@.len() - i,
        {
            if self.matchmaking_map[i].options.same_as(options) {
                return Some(i);
            }
            i = i + 1;
        }
        None
    }

    fn find_membership(&self, address: &PeerAddr) -> (found: Option<usize>)
        ensures
            match found {
                Some(i) => i < self.client_matchmaking_map@.len()
                    && self.client_matchmaking_map@[i as int].address == *address,
                None => forall|i: int|
                    0 <= i < self.client_matchmaking_map@.len() ==> (
                    #[trigger] self.client_matchmaking_map@[i]).address != *address,
            },
    {
        let mut i: usize = 0;
        while i < self.client_matchmaking_map.len()
            invariant
                i <= self.client_matchmaking_map@.len(),
                forall|j: int|
                    0 <= j < i ==> (#[trigger] self.client_matchmaking_map@[j]).address
                        != *address,
            decreases self.client_matchmaking_map@.len() - i,
        {
            if self.client_matchmaking_map[i].address == *address {
                return Some(i);
            }
            i = i + 1;
        }
        None
    }

    /// What finding a client says of the directory.
    proof fn lemma_found_client(&self, address: PeerAddr, found: Option<usize>)
        requires
            distinct_keys(client_pairs(self.clients@)),
            match found {
                Some(i) => i < self.clients@.len() && self.clients@[i as int].address == address,
                None => forall|i: int|
                    0 <= i < self.clients@.len() ==> (#[trigger] self.clients@[i]).address
                        != address,
            },
        ensures
            found is Some == self.directory().contains_key(address),
            found matches Some(i) ==> self.directory()[address] == self.clients@[i as int].client,
    {
        let pairs = client_pairs(self.clients@);
        match found {
            Some(i) => {
                lemma_entry(pairs, i as int);
            },
            None => {
                assert forall|i: int| 0 <= i < pairs.len() implies (#[trigger] pairs[i]).0
                    != address by {
                    assert(self.clients@[i].address != address);
                }
                lemma_no_entry(pairs, address);
            },
        }
    }

    /// What finding a group says of the group index.
    proof fn lemma_found_group(&self, options: MatchmakingOptionsView, found: Option<usize>)
        requires
            distinct_keys(group_pairs(self.matchmaking_map@)),
            match found {
                Some(i) => i < self.matchmaking_map@.len() && self.matchmaking_map@[i as int].options@
                    == options,
                None => forall|i: int|
                    0 <= i < self.matchmaking_map@.len() ==> (
                    #[trigger] self.matchmaking_map@[i]).options@ != options,
            },
        ensures
            found is Some == self.group_index().contains_key(options),
            found matches Some(i) ==> self.group_index()[options]
                == self.matchmaking_map@[i as int].members@,
    {
        let pairs = group_pairs(self.matchmaking_map@);
        match found {
            Some(i) => {
                lemma_entry(pairs, i as int);
            },
            None => {
                assert forall|i: int| 0 <= i < pairs.len() implies (#[trigger] pairs[i]).0
                    != options by {
                    assert(self.matchmaking_map@[i].options@ != options);
                }
                lemma_no_entry(pairs, options);
            },
        }
    }

    /// What finding a membership says of the membership map.
    proof fn lemma_found_membership(&self, address: PeerAddr, found: Option<usize>)
        requires
            distinct_keys(membership_pairs(self.client_matchmaking_map@)),
            match found {
                Some(i) => i < self.client_matchmaking_map@.len()
                    && self.client_matchmaking_map@[i as int].address == address,
                None => forall|i: int|
                    0 <= i < self.client_matchmaking_map@.len() ==> (
                    #[trigger] self.client_matchmaking_map@[i]).address != address,
            },
        ensures
            found is Some == self.membership().contains_key(address),
            found matches Some(i) ==> self.membership()[address]
                == self.client_matchmaking_map@[i as int].options@,
    {
        let pairs = membership_pairs(self.client_matchmaking_map@);
        match found {
            Some(i) => {
                lemma_entry(pairs, i as int);
            },
            None => {
                assert forall|i: int| 0 <= i < pairs.len() implies (#[trigger] pairs[i]).0
                    != address by {
                    assert(self.client_matchmaking_map@[i].address != address);
                }
                lemma_no_entry(pairs, address);
            },
        }
    }

    /// The client at `address`, if one is connected from there.
    pub fn get_client(&self, address: &PeerAddr) -> (client: Option<&Client>)
        requires
            self.index_wf(),
        ensures
            match client {
                Some(c) => self.directory().contains_key(*address) && *c == self.directory()[*address],
                None => !self.directory().contains_key(*address),
            },
    {
        let found = self.find_client(address);
        proof {
            self.lemma_found_client(*address, found);
        }
        match found {
            Some(i) => Some(&self.clients[i].client),
            None => None,
        }
    }

    /// The number of members of the group of `matchmaking_options`; 0 where
    /// there is no such group.
    pub fn group_len(&self, matchmaking_options: &MatchmakingOptions) -> (len: usize)
        requires
            self.index_wf(),
        ensures
            len == self.group_size(matchmaking_options@),
    {
        let found = self.find_group(matchmaking_options);
        proof {
            self.lemma_found_group(matchmaking_options@, found);
        }
        match found {
            Some(at) => self.matchmaking_map[at].members.len(),
            None => 0,
        }
    }

    /// The client at `address`, if one is connected from there, to be
    /// changed in place. Whatever is written to it, the index stays as it is.
    pub fn get_client_mut(&mut self, address: &PeerAddr) -> (client: Option<&mut Client>)
        requires
            old(self).index_wf(),
        ensures
            final(self).group_index() == old(self).group_index(),
            final(self).membership() == old(self).membership(),
            final(self).addresses() == old(self).addresses(),
            final(self).index_wf(),
            old(self).wf() ==> final(self).wf(),
            match client {
                Some(c) => {
                    &&& old(self).directory().contains_key(*address)
                    &&& *c == old(self).directory()[*address]
                    &&& final(self).directory() == old(self).directory().insert(
                        *address,
                        *final(c),
                    )
                },
                None => {
                    &&& !old(self).directory().contains_key(*address)
                    &&& final(self).directory() == old(self).directory()
                },
            },
    {
        let found = self.find_client(address);
        proof {
            self.lemma_found_client(*address, found);
        }
        match found {
            Some(i) => {
                let ghost pairs = client_pairs(self.clients@);
                let entry: &mut ClientEntry = &mut self.clients[i];
                let client: &mut Client = &mut entry.client;
                proof {
                    let after = old(self).clients@.update(
                        i as int,
                        ClientEntry { address: *address, client: *final(client) },
                    );
                    lemma_update(pairs, i as int, *final(client));
                    assert(client_pairs(after) =~= pairs.update(
                        i as int,
                        (*address, *final(client)),
                    ));
                    assert(Seq::new(after.len(), |j: int| after[j].address) =~= old(
                        self,
                    ).addresses());
                    assert(as_map(client_pairs(after)).dom() =~= old(self).directory().dom());
                }
                Some(client)
            },
            None => None,
        }
    }

    /// The options that `address` is indexed under. The address must be
    /// known.
    pub fn get_matchmaking_options(&self, address: &PeerAddr) -> (options: &MatchmakingOptions)
        requires
            self.index_wf(),
            self.membership().contains_key(*address),
        ensures
            options@ == self.membership()[*address],
    {
        let found = self.find_membership(address);
        proof {
            self.lemma_found_membership(*address, found);
        }
        match found {
            Some(i) => &self.client_matchmaking_map[i].options,
            None => unreached(),
        }
    }

    /// Takes `address` out of the group that membership `i` names. A group
    /// that loses its last member is deleted.
    fn leave_group(&mut self, address: &PeerAddr, i: usize)
        requires
            old(self).index_wf(),
            i < old(self).client_matchmaking_map@.len(),
            old(self).client_matchmaking_map@[i as int].address == *address,
        ensures
            final(self).clients == old(self).clients,
            final(self).client_matchmaking_map == old(self).client_matchmaking_map,
            distinct_keys(group_pairs(final(self).matchmaking_map@)),
            final(self).group_index() == groups_after_leave(
                old(self).group_index(),
                old(self).membership(),
                *address,
            ),
            member_total(final(self).matchmaking_map@) == member_total(old(self).matchmaking_map@)
                - 1,
    {
        let ghost options = self.client_matchmaking_map@[i as int].options@;
        let found = self.find_group(&self.client_matchmaking_map[i].options);
        proof {
            self.lemma_found_membership(*address, Some(i));
            self.lemma_found_group(options, found);
        }
        let at: usize = match found {
            Some(at) => at,
            None => unreached(),
        };
        let ghost before = self.matchmaking_map@;
        let ghost pairs = group_pairs(before);
        let group: Group = self.matchmaking_map.remove(at);
        let rest: Vec<PeerAddr> = retain_others(&group.members, address);
        proof {
            lemma_remove(pairs, at as int);
            lemma_member_total_remove(before, at as int);
            lemma_without(group.members@, *address);
            assert(group_pairs(before.remove(at as int)) =~= pairs.remove(at as int));
        }
        if rest.len() > 0 {
            let ghost removed = self.matchmaking_map@;
            let kept = Group { options: group.options, members: rest };
            self.matchmaking_map.push(kept);
            proof {
                let removed_pairs = group_pairs(removed);
                lemma_push(removed_pairs, options, rest@);
                lemma_member_total_push(removed, kept);
                assert(group_pairs(removed.push(kept)) =~= removed_pairs.push((options, rest@)));
                assert(self.group_index() =~= old(self).group_index().insert(options, rest@));
            }
        }
    }

    /// Makes `address` the last member of the group of `options`, which is
    /// created if it does not exist.
    fn join_group(&mut self, address: &PeerAddr, options: &MatchmakingOptions)
        requires
            distinct_keys(group_pairs(old(self).matchmaking_map@)),
        ensures
            final(self).clients == old(self).clients,
            final(self).client_matchmaking_map == old(self).client_matchmaking_map,
            distinct_keys(group_pairs(final(self).matchmaking_map@)),
            final(self).group_index() == groups_after_join(
                old(self).group_index(),
                options@,
                *address,
            ),
            member_total(final(self).matchmaking_map@) == member_total(old(self).matchmaking_map@)
                + 1,
    {
        let found = self.find_group(options);
        proof {
            self.lemma_found_group(options@, found);
        }
        let ghost before = self.matchmaking_map@;
        let ghost pairs = group_pairs(before);
        let mut group: Group = match found {
            Some(at) => {
                proof {
                    lemma_remove(pairs, at as int);
                    lemma_member_total_remove(before, at as int);
                    assert(group_pairs(before.remove(at as int)) =~= pairs.remove(at as int));
                }
                self.matchmaking_map.remove(at)
            },
            None => Group { options: options.clone(), members: Vec::new() },
        };
        group.members.push(*address);
        let ghost removed = self.matchmaking_map@;
        let ghost members = group.members@;
        self.matchmaking_map.push(group);
        proof {
            let removed_pairs = group_pairs(removed);
            lemma_push(removed_pairs, options@, members);
            lemma_member_total_push(removed, group);
            assert(group_pairs(removed.push(group)) =~= removed_pairs.push((options@, members)));
            assert(self.group_index() =~= groups_after_join(
                old(self).group_index(),
                options@,
                *address,
            ));
        }
    }

    /// Sets the options that `address` is indexed under, or takes the
    /// address out of the index.
    ///
    /// Nothing changes where the new options are the current ones. Else the
    /// address leaves its group, if it is in one, and joins the group of the
    /// new options, if there are any, as its last member.
    pub fn set_matchmaking_options(
        &mut self,
        address: &PeerAddr,
        matchmaking_options: Option<MatchmakingOptions>,
    )
        requires
            old(self).index_wf(),
        ensures
            final(self).index_wf(),
            final(self).group_index() == groups_after_set(
                old(self).group_index(),
                old(self).membership(),
                *address,
                options_view(matchmaking_options),
            ),
            final(self).membership() == membership_after_set(
                old(self).membership(),
                *address,
                options_view(matchmaking_options),
            ),
            final(self).directory() == old(self).directory(),
            final(self).addresses() == old(self).addresses(),
            old(self).wf() && (matchmaking_options is Some <==> old(self).directory().contains_key(
                *address,
            )) ==> final(self).wf(),
    {
        let ghost new = options_view(matchmaking_options);
        let previous = self.find_membership(address);
        proof {
            self.lemma_found_membership(*address, previous);
            lemma_set_mirrored(self.group_index(), self.membership(), *address, new);
        }
        let unchanged: bool = match (&previous, &matchmaking_options) {
            (Some(i), Some(options)) => self.client_matchmaking_map[*i].options.same_as(options),
            (None, None) => true,
            _ => false,
        };
        if unchanged {
            assert(self.membership() =~= membership_after_set(self.membership(), *address, new));
            return ;
        }
        let ghost memberships = self.client_matchmaking_map@;
        let ghost pairs = membership_pairs(memberships);
        if let Some(i) = previous {
            self.leave_group(address, i);
            self.client_matchmaking_map.remove(i);
            proof {
                lemma_remove(pairs, i as int);
                assert(membership_pairs(memberships.remove(i as int)) =~= pairs.remove(i as int));
            }
        }
        match matchmaking_options {
            Some(options) => {
                self.join_group(address, &options);
                let ghost removed = self.client_matchmaking_map@;
                let membership = Membership { address: *address, options };
                self.client_matchmaking_map.push(membership);
                proof {
                    let removed_pairs = membership_pairs(removed);
                    lemma_push(removed_pairs, *address, options@);
                    assert(membership_pairs(removed.push(membership)) =~= removed_pairs.push(
                        (*address, options@),
                    ));
                    assert(self.membership() =~= old(self).membership().insert(
                        *address,
                        options@,
                    ));
                }
            },
            None => {},
        }
    }

    /// Connects a client: puts it into the directory under `address`, and
    /// sets the options of the address to `matchmaking_options`.
    ///
    /// Where a client is connected from `address` already, the new one
    /// takes its place in the directory and the old one is returned; the
    /// address moves to the group of the new options, unless it is in it.
    pub fn add_client(
        &mut self,
        address: &PeerAddr,
        client: Client,
        matchmaking_options: MatchmakingOptions,
    ) -> (previous: Option<Client>)
        requires
            old(self).wf(),
        ensures
            final(self).wf(),
            final(self).directory() == old(self).directory().insert(*address, client),
            final(self).group_index() == groups_after_set(
                old(self).group_index(),
                old(self).membership(),
                *address,
                Some(matchmaking_options@),
            ),
            final(self).membership() == old(self).membership().insert(
                *address,
                matchmaking_options@,
            ),
            final(self).addresses() == if old(self).directory().contains_key(*address) {
                old(self).addresses()
            } else {
                old(self).addresses().push(*address)
            },
            match previous {
                Some(p) => old(self).directory().contains_key(*address) && p == old(
                    self,
                ).directory()[*address],
                None => !old(self).directory().contains_key(*address),
            },
    {
        let found = self.find_client(address);
        let ghost before = self.clients@;
        let ghost pairs = client_pairs(before);
        proof {
            self.lemma_found_client(*address, found);
        }
        let previous: Option<Client> = match found {
            Some(i) => {
                let entry: ClientEntry = self.clients.remove(i);
                let replaced = ClientEntry { address: *address, client };
                self.clients.insert(i, replaced);
                proof {
                    lemma_update(pairs, i as int, client);
                    assert(client_pairs(self.clients@) =~= pairs.update(
                        i as int,
                        (*address, client),
                    ));
                    assert(self.addresses() =~= old(self).addresses());
                }
                Some(entry.client)
            },
            None => {
                let added = ClientEntry { address: *address, client };
                self.clients.push(added);
                proof {
                    lemma_push(pairs, *address, client);
                    assert(client_pairs(before.push(added)) =~= pairs.push((*address, client)));
                    assert(self.addresses() =~= old(self).addresses().push(*address));
                }
                None
            },
        };
        self.set_matchmaking_options(address, Some(matchmaking_options));
        proof {
            assert(self.directory().dom() =~= self.membership().dom());
        }
        previous
    }

    /// Disconnects the client at `address`, if there is one, takes the
    /// address out of the index, and returns the client.
    pub fn remove_client(&mut self, address: &PeerAddr) -> (removed: Option<Client>)
        requires
            old(self).wf(),
        ensures
            final(self).wf(),
            final(self).directory() == old(self).directory().remove(*address),
            final(self).group_index() == groups_after_leave(
                old(self).group_index(),
                old(self).membership(),
                *address,
            ),
            final(self).membership() == old(self).membership().remove(*address),
            final(self).addresses() == without(old(self).addresses(), *address),
            match removed {
                Some(client) => old(self).directory().contains_key(*address) && client == old(
                    self,
                ).directory()[*address],
                None => !old(self).directory().contains_key(*address),
            },
    {
        let found = self.find_client(address);
        let ghost before = self.clients@;
        let ghost pairs = client_pairs(before);
        proof {
            self.lemma_found_client(*address, found);
            self.lemma_addresses();
        }
        match found {
            Some(i) => {
                let entry: ClientEntry = self.clients.remove(i);
                proof {
                    lemma_remove(pairs, i as int);
                    assert(client_pairs(before.remove(i as int)) =~= pairs.remove(i as int));
                    lemma_without_is_remove(old(self).addresses(), i as int);
                    assert(self.addresses() =~= old(self).addresses().remove(i as int));
                }
                self.set_matchmaking_options(address, None);
                proof {
                    assert(self.directory().dom() =~= self.membership().dom());
                }
                Some(entry.client)
            },
            None => {
                proof {
                    assert(self.directory() =~= old(self).directory().remove(*address));
                    assert(self.membership() =~= old(self).membership().remove(*address));
                    lemma_without(old(self).addresses(), *address);
                    assert(!old(self).addresses().contains(*address)) by {
                        if old(self).addresses().contains(*address) {
                            let j = choose|j: int|
                                0 <= j < old(self).addresses().len() && old(self).addresses()[j]
                                    == *address;
                            assert(self.clients@[j].address == *address);
                        }
                    }
                }
                None
            },
        }
    }

    /// Every connected address with its client, in the order of
    /// `addresses`.
    pub fn get_clients_iter(&self) -> (clients: Vec<(&PeerAddr, &Client)>)
        requires
            self.index_wf(),
        ensures
            clients@.len() == self.addresses().len(),
            clients@.len() == self.directory().len(),
            forall|i: int|
                0 <= i < clients@.len() ==> {
                    &&& *(#[trigger] clients@[i]).0 == self.addresses()[i]
                    &&& self.directory().contains_key(self.addresses()[i])
                    &&& *clients@[i].1 == self.directory()[self.addresses()[i]]
                },
    {
        let mut clients: Vec<(&PeerAddr, &Client)> = Vec::new();
        let mut i: usize = 0;
        proof {
            self.lemma_addresses();
        }
        while i < self.clients.len()
            invariant
                i <= self.clients@.len(),
                distinct_keys(client_pairs(self.clients@)),
                clients@.len() == i,
                forall|j: int|
                    0 <= j < i ==> {
                        &&& *(#[trigger] clients@[j]).0 == self.addresses()[j]
                        &&& self.directory().contains_key(self.addresses()[j])
                        &&& *clients@[j].1 == self.directory()[self.addresses()[j]]
                    },
            decreases self.clients@.len() - i,
        {
            proof {
                lemma_entry(client_pairs(self.clients@), i as int);
            }
            let entry = &self.clients[i];
            clients.push((&entry.address, &entry.client));
            i = i + 1;
        }
        clients
    }

    /// The clients of the group of `matchmaking_options`, in the order in
    /// which they joined it. The group must exist.
    pub fn get_clients_in_group(&self, matchmaking_options: &MatchmakingOptions) -> (clients: Vec<
        &Client,
    >)
        requires
            self.wf(),
            self.group_index().contains_key(matchmaking_options@),
        ensures
            dereferenced(clients@) == self.group_clients(matchmaking_options@),
    {
        let found = self.find_group(matchmaking_options);
        proof {
            self.lemma_found_group(matchmaking_options@, found);
        }
        let at: usize = match found {
            Some(at) => at,
            None => unreached(),
        };
        let members = &self.matchmaking_map[at].members;
        let ghost expected = self.group_clients(matchmaking_options@);
        let mut clients: Vec<&Client> = Vec::new();
        let mut i: usize = 0;
        while i < members.len()
            invariant
                self.wf(),
                self.group_index().contains_key(matchmaking_options@),
                members@ == self.group_index()[matchmaking_options@],
                expected == self.group_clients(matchmaking_options@),
                i <= members@.len(),
                clients@.len() == i,
                forall|j: int| 0 <= j < i ==> *(#[trigger] clients@[j]) == expected[j],
            decreases members@.len() - i,
        {
            let member = &members[i];
            let position = self.find_client(member);
            proof {
                self.lemma_found_client(*member, position);
                assert(self.membership().contains_key(
                    self.group_index()[matchmaking_options@][i as int],
                ));
                assert(self.directory().dom().contains(*member));
            }
            let at: usize = match position {
                Some(at) => at,
                None => unreached(),
            };
            clients.push(&self.clients[at].client);
            i = i + 1;
        }
        assert(dereferenced(clients@) =~= expected);
        clients
    }

    /// The clients of the group of `matchmaking_options` that are within
    /// `NEARBY_LEVELS` levels of `position`, in the order in which they
    /// joined the group. A client at `position` itself is among them.
    pub fn get_nearby_clients(
        &self,
        position: &Vector2,
        matchmaking_options: &MatchmakingOptions,
    ) -> (nearby: Vec<&Client>)
        requires
            self.wf(),
            self.group_index().contains_key(matchmaking_options@),
        ensures
            dereferenced(nearby@) == nearby_clients(
                *position,
                self.group_clients(matchmaking_options@),
            ),
    {
        let mut result: Vec<&Client> = Vec::new();
        let level: i32 = position.y_level();
        let clients = self.get_clients_in_group(matchmaking_options);
        let ghost all = dereferenced(clients@);
        let ghost near = |c: Client| levels_nearby(position.y, c.position.y);
        let mut i: usize = 0;
        proof {
            assert(all.take(0) =~= Seq::<Client>::empty());
            reveal(Seq::filter);
            lemma_y_level_range(position.y);
        }
        while i < clients.len()
            invariant
                i <= clients@.len(),
                all == dereferenced(clients@),
                near == |c: Client| levels_nearby(position.y, c.position.y),
                level == y_level(position.y),
                -5965233 <= level <= 5965232,
                dereferenced(result@) == all.take(i as int).filter(near),
            decreases clients@.len() - i,
        {
            let other: &Client = clients[i];
            let other_level: i32 = other.position.y_level();
            proof {
                lemma_y_level_range(other.position.y);
                let next = all.take(i + 1);
                assert(next.drop_last() =~= all.take(i as int));
                assert(next.last() == *other);
                all.take(i as int).lemma_filter_push(*other, near);
                assert(next =~= all.take(i as int).push(*other));
            }
            let difference: i32 = level - other_level;
            if -(NEARBY_LEVELS as i32) <= difference && difference <= NEARBY_LEVELS as i32 {
                result.push(other);
                assert(dereferenced(result@) =~= all.take(i as int).filter(near).push(*other));
            }
            i = i + 1;
        }
        assert(all.take(i as int) =~= all);
        result
    }

    /// The walk of the directory visits every connected address once.
    pub proof fn lemma_addresses(&self)
        requires
            self.index_wf(),
        ensures
            self.addresses().no_duplicates(),
            self.addresses().len() == self.directory().len(),
            self.directory().dom().finite(),
            forall|a: PeerAddr| self.addresses().contains(a) <==> self.directory().contains_key(a),
    {
        let pairs = client_pairs(self.clients@);
        let addresses = self.addresses();
        lemma_len(pairs);
        assert forall|i: int, j: int|
            0 <= i < addresses.len() && 0 <= j < addresses.len() && i != j implies addresses[i]
            != addresses[j] by {
            if i < j {
                assert(pairs[i].0 != pairs[j].0);
            } else {
                assert(pairs[j].0 != pairs[i].0);
            }
        }
        assert forall|a: PeerAddr| addresses.contains(a) <==> self.directory().contains_key(
            a,
        ) by {
            if addresses.contains(a) {
                let i = choose|i: int| 0 <= i < addresses.len() && addresses[i] == a;
                assert(pairs[i].0 == a);
            }
            if self.directory().contains_key(a) {
                lemma_key_has_entry(pairs, a);
                let i = index_of_key(pairs, a);
                assert(addresses[i] == a);
            }
        }
    }
}

/// In a list without duplicates, dropping the entries equal to one of its
/// entries removes that entry.
pub proof fn lemma_without_is_remove(s: Seq<PeerAddr>, i: int)
    requires
        s.no_duplicates(),
        0 <= i < s.len(),
    ensures
        without(s, s[i]) == s.remove(i),
    decreases s.len(),
{
    let a = s[i];
    let front = s.drop_last();
    assert(front.no_duplicates()) by {
        assert forall|x: int, y: int|
            0 <= x < front.len() && 0 <= y < front.len() && x != y implies front[x]
            != front[y] by {
            assert(front[x] == s[x] && front[y] == s[y]);
        }
    }
    if i == s.len() - 1 {
        lemma_without(front, a);
        assert(!front.contains(a)) by {
            if front.contains(a) {
                let j = choose|j: int| 0 <= j < front.len() && front[j] == a;
                assert(s[j] == s[i]);
            }
        }
        assert(s.remove(i) =~= front);
    } else {
        lemma_without_is_remove(front, i);
        assert(s.last() != a) by {
            assert(s[s.len() - 1] != s[i]);
        }
        assert(front.remove(i).push(s.last()) =~= s.remove(i));
    }
}

/// The number of members of all the groups of a group index together.
pub open spec fn total_members(groups: Map<MatchmakingOptionsView, Seq<PeerAddr>>) -> nat
    decreases groups.dom().len(),
    when groups.dom().finite()
{
    if groups.dom().len() > 0 {
        let o = groups.dom().choose();
        groups[o].len() + total_members(groups.remove(o))
    } else {
        0
    }
}

/// The total can be counted from any group first.
pub proof fn lemma_total_members_from(
    groups: Map<MatchmakingOptionsView, Seq<PeerAddr>>,
    o: MatchmakingOptionsView,
)
    requires
        groups.dom().finite(),
        groups.contains_key(o),
    ensures
        total_members(groups) == groups[o].len() + total_members(groups.remove(o)),
    decreases groups.dom().len(),
{
    let first = groups.dom().choose();
    if first != o {
        lemma_total_members_from(groups.remove(first), o);
        lemma_total_members_from(groups.remove(o), first);
        assert(groups.remove(first).remove(o) =~= groups.remove(o).remove(first));
    }
}

/// The total of a group index that is kept as a list is the total of the
/// list.
proof fn lemma_total_members_of_list(s: Seq<Group>)
    requires
        distinct_keys(group_pairs(s)),
    ensures
        as_map(group_pairs(s)).dom().finite(),
        total_members(as_map(group_pairs(s))) == member_total(s),
    decreases s.len(),
{
    let pairs = group_pairs(s);
    lemma_len(pairs);
    if s.len() == 0 {
        assert(as_map(pairs).dom() =~= Set::<MatchmakingOptionsView>::empty());
    } else {
        let last = (s.len() - 1) as int;
        lemma_entry(pairs, last);
        lemma_remove(pairs, last);
        assert(pairs.remove(last) =~= group_pairs(s.drop_last()));
        lemma_total_members_of_list(s.drop_last());
        lemma_total_members_from(as_map(pairs), pairs[last].0);
    }
}

impl State {
    /// An address that the membership map indexes under some options is
    /// exactly once in the group of those options.
    pub proof fn lemma_member_is_in_its_group(&self, address: PeerAddr)
        requires
            self.index_wf(),
            self.membership().contains_key(address),
        ensures
            self.group_index().contains_key(self.membership()[address]),
            occurrences(self.group_index()[self.membership()[address]], address) == 1,
            forall|o: MatchmakingOptionsView|
                self.group_index().contains_key(o) && o != self.membership()[address]
                    ==> occurrences(#[trigger] self.group_index()[o], address) == 0,
    {
        lemma_occurrences(self.group_index()[self.membership()[address]], address);
        assert forall|o: MatchmakingOptionsView|
            self.group_index().contains_key(o) && o != self.membership()[address]
                implies occurrences(#[trigger] self.group_index()[o], address) == 0 by {
            lemma_occurrences(self.group_index()[o], address);
            if self.group_index()[o].contains(address) {
                let i = choose|i: int|
                    0 <= i < self.group_index()[o].len() && self.group_index()[o][i] == address;
                assert(self.membership()[self.group_index()[o][i]] == o);
            }
        }
    }

    /// A member of a group is indexed under the options of that group, and
    /// is in no other group.
    pub proof fn lemma_group_member_is_indexed(&self, o: MatchmakingOptionsView, i: int)
        requires
            self.index_wf(),
            self.group_index().contains_key(o),
            0 <= i < self.group_index()[o].len(),
        ensures
            self.membership().contains_key(self.group_index()[o][i]),
            self.membership()[self.group_index()[o][i]] == o,
            forall|p: MatchmakingOptionsView|
                self.group_index().contains_key(p) && self.group_index()[p].contains(
                    self.group_index()[o][i],
                ) ==> p == o,
    {
        let a = self.group_index()[o][i];
        assert forall|p: MatchmakingOptionsView|
            self.group_index().contains_key(p) && self.group_index()[p].contains(a) implies p
            == o by {
            let j = choose|j: int|
                0 <= j < self.group_index()[p].len() && self.group_index()[p][j] == a;
            assert(self.membership()[self.group_index()[p][j]] == p);
        }
    }

    /// No group is empty.
    pub proof fn lemma_no_group_is_empty(&self, o: MatchmakingOptionsView)
        requires
            self.index_wf(),
            self.group_index().contains_key(o),
        ensures
            self.group_index()[o].len() > 0,
    {
    }

    /// There are as many connected clients as indexed addresses, and as
    /// many as the groups have members together.
    pub proof fn lemma_counts_agree(&self)
        requires
            self.wf(),
        ensures
            self.directory().dom().finite(),
            self.membership().dom().finite(),
            self.group_index().dom().finite(),
            self.directory().len() == self.membership().len(),
            self.membership().len() == total_members(self.group_index()),
    {
        lemma_len(client_pairs(self.clients@));
        lemma_len(membership_pairs(self.client_matchmaking_map@));
        lemma_total_members_of_list(self.matchmaking_map@);
    }

    /// Nearness is mutual: where a member B of a group is among the clients
    /// near the position of a member A, A is among the clients near the
    /// position of B.
    pub proof fn lemma_nearby_is_mutual(&self, o: MatchmakingOptionsView, a: int, b: int)
        requires
            self.wf(),
            self.group_index().contains_key(o),
            0 <= a < self.group_clients(o).len(),
            0 <= b < self.group_clients(o).len(),
            nearby_clients(self.group_clients(o)[a].position, self.group_clients(o)).contains(
                self.group_clients(o)[b],
            ),
        ensures
            nearby_clients(self.group_clients(o)[b].position, self.group_clients(o)).contains(
                self.group_clients(o)[a],
            ),
    {
        let clients = self.group_clients(o);
        let client_a = clients[a];
        let client_b = clients[b];
        let near_a = |c: Client| levels_nearby(client_a.position.y, c.position.y);
        let near_b = |c: Client| levels_nearby(client_b.position.y, c.position.y);
        broadcast use vstd::seq_lib::group_filter_ensures;

        let found = choose|i: int|
            0 <= i < clients.filter(near_a).len() && clients.filter(near_a)[i] == client_b;
        assert(near_a(clients.filter(near_a)[found]));
        assert(near_b(clients[a]));
    }
}

} // verus!
