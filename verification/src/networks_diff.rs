//! The difference between the chains that the configuration names and those
//! that the registry holds.

use vstd::prelude::*;
use crate::compressor::{fresh, register_networks, remaining, Network};
use crate::messages::{
    firsts, named, names_of, seconds, Message, MessageView, NetworkIndex,
};

verus! {

/// The chains to register and to remove so that the registry holds the
/// configured chains.
#[derive(Clone, Debug, PartialEq, Eq)]
pub struct NetworksDiff {
    /// Registered chains that the configuration does not name, each with its
    /// index in the registry, in ascending order of the index.
    pub deletions: Vec<(String, NetworkIndex)>,
    /// Configured chains that the registry lacks, each with its place in the
    /// configuration, in the configuration's order.
    pub insertions: Vec<(String, u64)>,
}

/// The names of `registered` that `configured` lacks, each with its index.
pub open spec fn deletions_of(registered: Seq<Seq<char>>, configured: Seq<Seq<char>>) -> Seq<
    (Seq<char>, NetworkIndex),
>
    decreases registered.len(),
{
    if registered.len() == 0 {
        Seq::empty()
    } else if configured.contains(registered.last()) {
        deletions_of(registered.drop_last(), configured)
    } else {
        deletions_of(registered.drop_last(), configured).push(
            (registered.last(), (registered.len() - 1) as u64),
        )
    }
}

/// The names among the first `n` of `configured` that `registered` lacks,
/// each with its place in `configured`.
pub open spec fn insertions_among(
    registered: Seq<Seq<char>>,
    configured: Seq<Seq<char>>,
    n: int,
) -> Seq<(Seq<char>, u64)>
    decreases n,
{
    if n <= 0 {
        Seq::empty()
    } else if registered.contains(configured[n - 1]) {
        insertions_among(registered, configured, n - 1)
    } else {
        insertions_among(registered, configured, n - 1).push((configured[n - 1], (n - 1) as u64))
    }
}

/// The names of `configured` that `registered` lacks, each with its place in
/// `configured`.
pub open spec fn insertions_of(registered: Seq<Seq<char>>, configured: Seq<Seq<char>>) -> Seq<
    (Seq<char>, u64),
> {
    insertions_among(registered, configured, configured.len() as int)
}

/// The registry change that a difference asks for, if it asks for one.
pub open spec fn diff_message(
    deletions: Seq<(Seq<char>, NetworkIndex)>,
    insertions: Seq<(Seq<char>, u64)>,
) -> Option<MessageView> {
    if deletions.len() == 0 && insertions.len() == 0 {
        None
    } else {
        Some(MessageView::RegisterNetworks { remove: seconds(deletions), add: firsts(insertions) })
    }
}

proof fn lemma_push_contains<A>(s: Seq<A>, a: A, x: A)
    ensures
        s.push(a).contains(x) <==> (s.contains(x) || x == a),
{
    if s.contains(x) {
        let i = choose|i: int| 0 <= i < s.len() && s[i] == x;
        assert(s.push(a)[i] == x);
    }
    if x == a {
        assert(s.push(a)[s.len() as int] == x);
    }
    if s.push(a).contains(x) {
        let i = choose|i: int| 0 <= i < s.push(a).len() && s.push(a)[i] == x;
        if i < s.len() {
            assert(s[i] == x);
        }
    }
}

proof fn lemma_deleted_index_is_in_range(
    registered: Seq<Seq<char>>,
    configured: Seq<Seq<char>>,
    x: u64,
)
    requires
        registered.len() <= u64::MAX,
        seconds(deletions_of(registered, configured)).contains(x),
    ensures
        x < registered.len(),
    decreases registered.len(),
{
    if registered.len() > 0 {
        let rest = registered.drop_last();
        let before = deletions_of(rest, configured);
        if configured.contains(registered.last()) {
            lemma_deleted_index_is_in_range(rest, configured, x);
        } else {
            let last = (registered.last(), (registered.len() - 1) as u64);
            assert(seconds(before.push(last)) =~= seconds(before).push(last.1));
            lemma_push_contains(seconds(before), last.1, x);
            if x != last.1 {
                lemma_deleted_index_is_in_range(rest, configured, x);
            }
        }
    }
}

/// An index is deleted if and only if the configuration lacks the name that
/// is registered there.
pub proof fn lemma_deleted_iff_not_configured(
    registered: Seq<Seq<char>>,
    configured: Seq<Seq<char>>,
    i: int,
)
    requires
        0 <= i < registered.len() <= u64::MAX,
    ensures
        seconds(deletions_of(registered, configured)).contains(i as u64) <==> !configured.contains(
            registered[i],
        ),
    decreases registered.len(),
{
    let rest = registered.drop_last();
    let before = deletions_of(rest, configured);
    let last = (registered.last(), (registered.len() - 1) as u64);
    if !configured.contains(registered.last()) {
        assert(seconds(before.push(last)) =~= seconds(before).push(last.1));
        lemma_push_contains(seconds(before), last.1, i as u64);
    }
    if i == registered.len() - 1 {
        if seconds(before).contains(i as u64) {
            lemma_deleted_index_is_in_range(rest, configured, i as u64);
        }
    } else {
        lemma_deleted_iff_not_configured(rest, configured, i);
    }
}

proof fn lemma_kept_network_remains(
    registry: Seq<(Seq<char>, Network)>,
    remove: Seq<u64>,
    i: int,
)
    requires
        0 <= i < registry.len() <= u64::MAX,
        !remove.contains(i as u64),
    ensures
        remaining(registry, remove).contains(registry[i]),
    decreases registry.len(),
{
    let rest = registry.drop_last();
    if i < registry.len() - 1 {
        lemma_kept_network_remains(rest, remove, i);
    }
    if !remove.contains((registry.len() - 1) as u64) {
        lemma_push_contains(remaining(rest, remove), registry.last(), registry[i]);
    }
}

proof fn lemma_remaining_network_was_kept(
    registry: Seq<(Seq<char>, Network)>,
    remove: Seq<u64>,
    e: (Seq<char>, Network),
)
    requires
        registry.len() <= u64::MAX,
        remaining(registry, remove).contains(e),
    ensures
        exists|i: int| 0 <= i < registry.len() && registry[i] == e && !remove.contains(i as u64),
    decreases registry.len(),
{
    if registry.len() > 0 {
        let rest = registry.drop_last();
        if remove.contains((registry.len() - 1) as u64) {
            lemma_remaining_network_was_kept(rest, remove, e);
            let i = choose|i: int| 0 <= i < rest.len() && rest[i] == e && !remove.contains(i as u64);
            assert(registry[i] == e);
        } else {
            lemma_push_contains(remaining(rest, remove), registry.last(), e);
            if remaining(rest, remove).contains(e) {
                lemma_remaining_network_was_kept(rest, remove, e);
                let i = choose|i: int|
                    0 <= i < rest.len() && rest[i] == e && !remove.contains(i as u64);
                assert(registry[i] == e);
            } else {
                assert(registry[registry.len() - 1] == e);
            }
        }
    }
}

proof fn lemma_inserted_is_configured(
    registered: Seq<Seq<char>>,
    configured: Seq<Seq<char>>,
    n: int,
    name: Seq<char>,
)
    requires
        0 <= n <= configured.len(),
        firsts(insertions_among(registered, configured, n)).contains(name),
    ensures
        configured.contains(name),
    decreases n,
{
    if n > 0 {
        let before = insertions_among(registered, configured, n - 1);
        if registered.contains(configured[n - 1]) {
            lemma_inserted_is_configured(registered, configured, n - 1, name);
        } else {
            let last = (configured[n - 1], (n - 1) as u64);
            assert(firsts(before.push(last)) =~= firsts(before).push(last.0));
            lemma_push_contains(firsts(before), last.0, name);
            if firsts(before).contains(name) {
                lemma_inserted_is_configured(registered, configured, n - 1, name);
            } else {
                assert(configured[n - 1] == name);
            }
        }
    }
}

proof fn lemma_missing_is_inserted(
    registered: Seq<Seq<char>>,
    configured: Seq<Seq<char>>,
    n: int,
    j: int,
)
    requires
        0 <= j < n <= configured.len(),
        !registered.contains(configured[j]),
    ensures
        firsts(insertions_among(registered, configured, n)).contains(configured[j]),
    decreases n,
{
    let before = insertions_among(registered, configured, n - 1);
    if j < n - 1 {
        lemma_missing_is_inserted(registered, configured, n - 1, j);
    }
    if !registered.contains(configured[n - 1]) {
        let last = (configured[n - 1], (n - 1) as u64);
        assert(firsts(before.push(last)) =~= firsts(before).push(last.0));
        lemma_push_contains(firsts(before), last.0, configured[j]);
    }
}

/// Where the configuration has every registered name, nothing is deleted.
pub proof fn lemma_no_deletions(registered: Seq<Seq<char>>, configured: Seq<Seq<char>>)
    requires
        forall|i: int| 0 <= i < registered.len() ==> configured.contains(#[trigger] registered[i]),
    ensures
        deletions_of(registered, configured).len() == 0,
    decreases registered.len(),
{
    if registered.len() > 0 {
        let rest = registered.drop_last();
        assert forall|i: int| 0 <= i < rest.len() implies configured.contains(
            #[trigger] rest[i],
        ) by {
            assert(rest[i] == registered[i]);
        }
        lemma_no_deletions(rest, configured);
        assert(configured.contains(registered[registered.len() - 1]));
    }
}

/// Where the registry has each of the first `n` configured names, none of
/// them is inserted.
pub proof fn lemma_no_insertions(registered: Seq<Seq<char>>, configured: Seq<Seq<char>>, n: int)
    requires
        0 <= n <= configured.len(),
        forall|j: int| 0 <= j < n ==> registered.contains(#[trigger] configured[j]),
    ensures
        insertions_among(registered, configured, n).len() == 0,
    decreases n,
{
    if n > 0 {
        lemma_no_insertions(registered, configured, n - 1);
        assert(registered.contains(configured[n - 1]));
    }
}

/// Once the registry change that a difference asks for is applied, the
/// difference between the registry and the same configuration is empty:
/// nothing is left to insert or to delete.
pub proof fn lemma_diff_is_idempotent(
    registry: Seq<(Seq<char>, Network)>,
    configured: Seq<Seq<char>>,
)
    requires
        registry.len() <= u64::MAX,
    ensures
        ({
            let deletions = deletions_of(firsts(registry), configured);
            let insertions = insertions_of(firsts(registry), configured);
            let next = register_networks(registry, seconds(deletions), firsts(insertions));
            &&& deletions_of(firsts(next), configured).len() == 0
            &&& insertions_of(firsts(next), configured).len() == 0
        }),
{
    let registered = firsts(registry);
    let deletions = deletions_of(registered, configured);
    let insertions = insertions_of(registered, configured);
    let remove = seconds(deletions);
    let add = firsts(insertions);
    let kept = remaining(registry, remove);
    let next = register_networks(registry, remove, add);
    let names = firsts(next);
    assert forall|k: int| 0 <= k < names.len() implies configured.contains(
        #[trigger] names[k],
    ) by {
        if k < kept.len() {
            assert(kept[k] == next[k]);
            assert(kept.contains(kept[k]));
            lemma_remaining_network_was_kept(registry, remove, kept[k]);
            let i = choose|i: int|
                0 <= i < registry.len() && registry[i] == kept[k] && !remove.contains(i as u64);
            lemma_deleted_iff_not_configured(registered, configured, i);
            assert(registered[i] == names[k]);
        } else {
            let j = k - kept.len();
            assert(next[k] == fresh(add)[j]);
            assert(add[j] == names[k]);
            assert(add.contains(add[j]));
            lemma_inserted_is_configured(registered, configured, configured.len() as int, add[j]);
        }
    }
    lemma_no_deletions(names, configured);
    assert forall|j: int| 0 <= j < configured.len() implies names.contains(
        #[trigger] configured[j],
    ) by {
        if registered.contains(configured[j]) {
            let i = choose|i: int| 0 <= i < registered.len() && registered[i] == configured[j];
            assert(configured.contains(configured[j]));
            lemma_deleted_iff_not_configured(registered, configured, i);
            lemma_kept_network_remains(registry, remove, i);
            let k = choose|k: int| 0 <= k < kept.len() && kept[k] == registry[i];
            assert(next[k] == kept[k]);
            assert(names[k] == configured[j]);
        } else {
            lemma_missing_is_inserted(registered, configured, configured.len() as int, j);
            let m = choose|m: int| 0 <= m < add.len() && add[m] == configured[j];
            assert(next[kept.len() + m] == fresh(add)[m]);
            assert(names[kept.len() + m] == configured[j]);
        }
    }
    lemma_no_insertions(names, configured, configured.len() as int);
}

fn contains_name(names: &Vec<String>, name: &String) -> (r: bool)
    ensures
        r == names_of(names@).contains(name@),
{
    let mut j: usize = 0;
    while j < names.len()
        invariant
            j <= names.len(),
            forall|k: int| 0 <= k < j ==> names_of(names@)[k] != name@,
        decreases names.len() - j,
    {
        if names[j] == *name {
            assert(names_of(names@)[j as int] == name@);
            return true;
        }
        j += 1;
    }
    false
}

impl NetworksDiff {
    /// The difference between the registry, given by the names of its
    /// networks in the order of their indices, and the configured chains.
    pub fn calculate(registered: &Vec<String>, configured: &Vec<String>) -> (diff: NetworksDiff)
        ensures
            named(diff.deletions@) == deletions_of(names_of(registered@), names_of(configured@)),
            named(diff.insertions@) == insertions_of(names_of(registered@), names_of(configured@)),
    {
        let mut deletions: Vec<(String, NetworkIndex)> = Vec::new();
        let mut i: usize = 0;
        while i < registered.len()
            invariant
                i <= registered.len(),
                named(deletions@) == deletions_of(
                    names_of(registered@).take(i as int),
                    names_of(configured@),
                ),
            decreases registered.len() - i,
        {
            assert(names_of(registered@).take(i + 1).drop_last() =~= names_of(registered@).take(
                i as int,
            ));
            let ghost before = named(deletions@);
            if !contains_name(configured, &registered[i]) {
                deletions.push((registered[i].clone(), i as u64));
                assert(named(deletions@) =~= before.push((registered@[i as int]@, i as u64)));
            }
            i += 1;
        }
        assert(names_of(registered@).take(registered.len() as int) =~= names_of(registered@));
        let mut insertions: Vec<(String, u64)> = Vec::new();
        let mut j: usize = 0;
        while j < configured.len()
            invariant
                j <= configured.len(),
                named(insertions@) == insertions_among(
                    names_of(registered@),
                    names_of(configured@),
                    j as int,
                ),
            decreases configured.len() - j,
        {
            let ghost before = named(insertions@);
            if !contains_name(registered, &configured[j]) {
                insertions.push((configured[j].clone(), j as u64));
                assert(named(insertions@) =~= before.push((configured@[j as int]@, j as u64)));
            }
            j += 1;
        }
        NetworksDiff { deletions, insertions }
    }
}

/// The registry change that `diff` asks for: none where it is empty, else the
/// removal of the deleted indices and the addition of the inserted names.
pub fn networks_diff_to_message(diff: &NetworksDiff) -> (message: Option<Message>)
    ensures
        match diff_message(named(diff.deletions@), named(diff.insertions@)) {
            Some(view) => message is Some && message.unwrap()@ == view,
            None => message is None,
        },
{
    if diff.deletions.len() == 0 && diff.insertions.len() == 0 {
        return None;
    }
    let mut remove: Vec<NetworkIndex> = Vec::new();
    let mut i: usize = 0;
    while i < diff.deletions.len()
        invariant
            i <= diff.deletions.len(),
            remove@ == seconds(named(diff.deletions@)).take(i as int),
        decreases diff.deletions.len() - i,
    {
        remove.push(diff.deletions[i].1);
        i += 1;
        assert(remove@ =~= seconds(named(diff.deletions@)).take(i as int));
    }
    let mut add: Vec<String> = Vec::new();
    let mut j: usize = 0;
    while j < diff.insertions.len()
        invariant
            j <= diff.insertions.len(),
            names_of(add@) == firsts(named(diff.insertions@)).take(j as int),
        decreases diff.insertions.len() - j,
    {
        let ghost before = names_of(add@);
        add.push(diff.insertions[j].0.clone());
        assert(names_of(add@) =~= before.push(diff.insertions@[j as int].0@));
        assert(firsts(named(diff.insertions@))[j as int] == diff.insertions@[j as int].0@);
        j += 1;
        assert(names_of(add@) =~= firsts(named(diff.insertions@)).take(j as int));
    }
    assert(remove@ =~= seconds(named(diff.deletions@)));
    assert(names_of(add@) =~= firsts(named(diff.insertions@)));
    Some(Message::RegisterNetworks { remove, add })
}

} // verus!
