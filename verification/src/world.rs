use vstd::prelude::*;
use crate::player::SpriteState;

verus! {

/// What the combat step reads of a player: its id, whether it attacks this
/// step, and its sprite after moving.
#[derive(Debug, PartialEq, Eq, Structural, Copy, Clone)]
pub struct Fighter {
    pub id: u32,
    pub attacking: bool,
    pub sprite_state: SpriteState,
}

/// What the combat step decides for a player: its sprite and how many blows it takes.
#[derive(Debug, PartialEq, Eq, Structural, Copy, Clone)]
pub struct CombatOutcome {
    pub sprite_state: SpriteState,
    pub hits: usize,
}

/// Whether the hitbox of attacker `a` strikes player `v`: `a` attacks, has
/// another id than `v`, and its hitbox overlaps `v`'s body (`overlaps[a][v]`).
pub open spec fn strikes(fighters: Seq<Fighter>, overlaps: Seq<Seq<bool>>, a: int, v: int) -> bool {
    fighters[a].attacking && fighters[a].id != fighters[v].id && overlaps[a][v]
}

/// Number of attackers among the first `upto` fighters whose hitbox strikes `v`.
pub open spec fn hits_on(fighters: Seq<Fighter>, overlaps: Seq<Seq<bool>>, v: int, upto: int) -> nat
    decreases upto,
{
    if upto <= 0 {
        0
    } else {
        hits_on(fighters, overlaps, v, upto - 1) + if strikes(fighters, overlaps, upto - 1, v) {
            1nat
        } else {
            0nat
        }
    }
}

/// The sprite of a fighter after combat: hurt if struck at all, else attacking
/// if it attacks, else as it was.
pub open spec fn sprite_after_combat(f: Fighter, hits: nat) -> SpriteState {
    if hits > 0 {
        SpriteState::Damage
    } else if f.attacking {
        SpriteState::Attack
    } else {
        f.sprite_state
    }
}

/// Whether `overlaps` is a square table with one row and one column per fighter.
pub open spec fn well_shaped(fighters: Seq<Fighter>, overlaps: Seq<Seq<bool>>) -> bool {
    &&& overlaps.len() == fighters.len()
    &&& forall|a: int| 0 <= a < overlaps.len() ==> #[trigger] overlaps[a].len() == fighters.len()
}

/// The outcome of one combat step for every fighter, in order.
pub open spec fn combat(fighters: Seq<Fighter>, overlaps: Seq<Seq<bool>>) -> Seq<CombatOutcome> {
    Seq::new(
        fighters.len(),
        |v: int|
            {
                let hits = hits_on(fighters, overlaps, v, fighters.len() as int);
                CombatOutcome {
                    sprite_state: sprite_after_combat(fighters[v], hits),
                    hits: hits as usize,
                }
            },
    )
}

/// A player is struck at most once by each of the first `upto` fighters.
pub proof fn lemma_hits_on_bound(fighters: Seq<Fighter>, overlaps: Seq<Seq<bool>>, v: int, upto: int)
    ensures
        hits_on(fighters, overlaps, v, upto) <= if upto < 0 { 0 } else { upto },
    decreases upto,
{
    if upto > 0 {
        lemma_hits_on_bound(fighters, overlaps, v, upto - 1);
    }
}

/// When nobody attacks, nobody is struck and every sprite stays as it was.
pub proof fn peaceful_step(fighters: Seq<Fighter>, overlaps: Seq<Seq<bool>>)
    requires
        forall|i: int| 0 <= i < fighters.len() ==> !(#[trigger] fighters[i]).attacking,
    ensures
        forall|v: int|
            0 <= v < fighters.len() ==> #[trigger] combat(fighters, overlaps)[v] == (CombatOutcome {
                sprite_state: fighters[v].sprite_state,
                hits: 0,
            }),
{
    assert forall|v: int| 0 <= v < fighters.len() implies #[trigger] combat(fighters, overlaps)[v]
        == (CombatOutcome { sprite_state: fighters[v].sprite_state, hits: 0 }) by {
        lemma_no_attacker_no_hits(fighters, overlaps, v, fighters.len() as int);
    }
}

proof fn lemma_no_attacker_no_hits(fighters: Seq<Fighter>, overlaps: Seq<Seq<bool>>, v: int, upto: int)
    requires
        forall|i: int| 0 <= i < fighters.len() ==> !(#[trigger] fighters[i]).attacking,
        upto <= fighters.len(),
    ensures
        hits_on(fighters, overlaps, v, upto) == 0,
    decreases upto,
{
    if upto > 0 {
        assert(!fighters[upto - 1].attacking);
        lemma_no_attacker_no_hits(fighters, overlaps, v, upto - 1);
    }
}

/// Whether two overlap tables agree on every attacker/victim pair with distinct ids.
pub open spec fn agree_across_ids(fighters: Seq<Fighter>, o1: Seq<Seq<bool>>, o2: Seq<Seq<bool>>) -> bool {
    forall|a: int, v: int|
        0 <= a < fighters.len() && 0 <= v < fighters.len() && fighters[a].id != fighters[v].id
            ==> #[trigger] o1[a][v] == #[trigger] o2[a][v]
}

/// A player's own hitbox never counts: the outcome does not depend on whether
/// a hitbox overlaps a player with the same id.
pub proof fn own_hitbox_is_harmless(fighters: Seq<Fighter>, o1: Seq<Seq<bool>>, o2: Seq<Seq<bool>>)
    requires
        agree_across_ids(fighters, o1, o2),
    ensures
        combat(fighters, o1) == combat(fighters, o2),
{
    assert forall|v: int| 0 <= v < fighters.len() implies #[trigger] combat(fighters, o1)[v]
        == combat(fighters, o2)[v] by {
        lemma_hits_agree(fighters, o1, o2, v, fighters.len() as int);
    }
    assert(combat(fighters, o1) =~= combat(fighters, o2));
}

proof fn lemma_hits_agree(fighters: Seq<Fighter>, o1: Seq<Seq<bool>>, o2: Seq<Seq<bool>>, v: int, upto: int)
    requires
        agree_across_ids(fighters, o1, o2),
        0 <= v < fighters.len(),
        upto <= fighters.len(),
    ensures
        hits_on(fighters, o1, v, upto) == hits_on(fighters, o2, v, upto),
    decreases upto,
{
    if upto > 0 {
        let a = upto - 1;
        if fighters[a].id != fighters[v].id {
            assert(o1[a][v] == o2[a][v]);
        }
        lemma_hits_agree(fighters, o1, o2, v, upto - 1);
    }
}

/// No player takes more blows than there are players.
pub proof fn blows_are_bounded(fighters: Seq<Fighter>, overlaps: Seq<Seq<bool>>, v: int)
    requires
        0 <= v < fighters.len(),
    ensures
        combat(fighters, overlaps)[v].hits <= fighters.len(),
{
    lemma_hits_on_bound(fighters, overlaps, v, fighters.len() as int);
}

/// The attackers among the first `upto` fighters whose hitbox strikes `v`.
proof fn lemma_hits_on_counts(fighters: Seq<Fighter>, overlaps: Seq<Seq<bool>>, v: int, upto: int)
    requires
        0 <= upto,
    ensures
        ({
            let s = Set::new(
                |a: int|
                    0 <= a < upto && fighters[a].attacking && fighters[a].id != fighters[v].id
                        && overlaps[a][v],
            );
            s.finite() && hits_on(fighters, overlaps, v, upto) == s.len()
        }),
    decreases upto,
{
    let s = Set::new(
        |a: int|
            0 <= a < upto && fighters[a].attacking && fighters[a].id != fighters[v].id
                && overlaps[a][v],
    );
    if upto == 0 {
        assert(s =~= Set::empty());
    } else {
        lemma_hits_on_counts(fighters, overlaps, v, upto - 1);
        let p = Set::new(
            |a: int|
                0 <= a < upto - 1 && fighters[a].attacking && fighters[a].id != fighters[v].id
                    && overlaps[a][v],
        );
        let k = upto - 1;
        if fighters[k].attacking && fighters[k].id != fighters[v].id && overlaps[k][v] {
            assert(s =~= p.insert(k));
            assert(!p.contains(k));
        } else {
            assert(s =~= p);
        }
    }
}

/// Every blow a player takes comes from another player's attack: the number
/// of blows is exactly the number of fighters that attack, have another id,
/// and whose hitbox overlaps the player; its own attack and its own hitbox
/// play no part. A player struck at all shows the damage sprite.
pub proof fn blows_come_from_other_attackers(fighters: Seq<Fighter>, overlaps: Seq<Seq<bool>>, v: int)
    requires
        0 <= v < fighters.len(),
        fighters.len() <= usize::MAX,
    ensures
        combat(fighters, overlaps)[v].hits == Set::new(
            |a: int|
                0 <= a < fighters.len() && fighters[a].attacking && fighters[a].id
                    != fighters[v].id && overlaps[a][v],
        ).len(),
        (exists|a: int|
            0 <= a < fighters.len() && fighters[a].attacking && fighters[a].id != fighters[v].id
                && #[trigger] overlaps[a][v]) ==> combat(fighters, overlaps)[v].hits >= 1
            && combat(fighters, overlaps)[v].sprite_state == SpriteState::Damage,
{
    let n = fighters.len() as int;
    lemma_hits_on_counts(fighters, overlaps, v, n);
    lemma_hits_on_bound(fighters, overlaps, v, n);
    let s = Set::new(
        |a: int|
            0 <= a < n && fighters[a].attacking && fighters[a].id != fighters[v].id
                && overlaps[a][v],
    );
    if exists|a: int|
        0 <= a < n && fighters[a].attacking && fighters[a].id != fighters[v].id
            && #[trigger] overlaps[a][v] {
        let a = choose|a: int|
            0 <= a < n && fighters[a].attacking && fighters[a].id != fighters[v].id
                && #[trigger] overlaps[a][v];
        assert(s.contains(a));
        assert(s.len() >= 1) by {
            if s.len() == 0 {
                assert(s =~= Set::empty());
            }
        }
    }
}

/// Blows exchanged at the same moment both land: two attacking players with
/// different ids whose hitboxes overlap each other are both struck and both
/// show the damage sprite.
pub proof fn exchanged_blows_both_land(fighters: Seq<Fighter>, overlaps: Seq<Seq<bool>>, x: int, y: int)
    requires
        0 <= x < fighters.len(),
        0 <= y < fighters.len(),
        fighters.len() <= usize::MAX,
        fighters[x].attacking,
        fighters[y].attacking,
        fighters[x].id != fighters[y].id,
        overlaps[x][y],
        overlaps[y][x],
    ensures
        combat(fighters, overlaps)[x].hits >= 1,
        combat(fighters, overlaps)[y].hits >= 1,
        combat(fighters, overlaps)[x].sprite_state == SpriteState::Damage,
        combat(fighters, overlaps)[y].sprite_state == SpriteState::Damage,
{
    blows_come_from_other_attackers(fighters, overlaps, x);
    blows_come_from_other_attackers(fighters, overlaps, y);
    assert(overlaps[y][x]);
    assert(overlaps[x][y]);
}

/// The blows of one simulation step: every attacking player swings a hitbox;
/// each player takes one blow from every other attacker whose hitbox overlaps
/// it (`overlaps[a][v]`, measured by the caller), and its sprite shows the
/// blow, else its own attack, else stays as it was.
pub fn resolve_combat(fighters: &Vec<Fighter>, overlaps: &Vec<Vec<bool>>) -> (r: Vec<CombatOutcome>)
    requires
        well_shaped(fighters@, overlaps@.map_values(|row: Vec<bool>| row@)),
    ensures
        r@ == combat(fighters@, overlaps@.map_values(|row: Vec<bool>| row@)),
{
    let ghost table = overlaps@.map_values(|row: Vec<bool>| row@);
    let n = fighters.len();
    let mut r: Vec<CombatOutcome> = Vec::new();
    let mut v: usize = 0;
    while v < n
        invariant
            n == fighters.len(),
            table == overlaps@.map_values(|row: Vec<bool>| row@),
            well_shaped(fighters@, table),
            v <= n,
            r.len() == v,
            forall|j: int| 0 <= j < v ==> #[trigger] r@[j] == combat(fighters@, table)[j],
        decreases n - v,
    {
        let mut hits: usize = 0;
        let mut a: usize = 0;
        while a < n
            invariant
                n == fighters.len(),
                table == overlaps@.map_values(|row: Vec<bool>| row@),
                well_shaped(fighters@, table),
                v < n,
                a <= n,
                hits == hits_on(fighters@, table, v as int, a as int),
            decreases n - a,
        {
            proof {
                lemma_hits_on_bound(fighters@, table, v as int, a as int);
                assert(table[a as int] == overlaps@[a as int]@);
                assert(table[a as int].len() == n);
            }
            if fighters[a].attacking && fighters[a].id != fighters[v].id && overlaps[a][v] {
                hits = hits + 1;
            }
            a += 1;
        }
        let f = fighters[v];
        let sprite_state = if hits > 0 {
            SpriteState::Damage
        } else if f.attacking {
            SpriteState::Attack
        } else {
            f.sprite_state
        };
        r.push(CombatOutcome { sprite_state, hits });
        v += 1;
    }
    assert(r@ =~= combat(fighters@, table));
    r
}

} // verus!
