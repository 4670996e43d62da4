use vstd::prelude::*;

verus! {

/// What the game learned of one shot in flight this frame, before moving
/// it: whether it was already marked for removal, and whether it lies
/// inside the first and the second tank.
#[derive(Clone, Copy, Debug, PartialEq, Eq, Structural)]
pub struct ShotReport {
    pub to_be_removed: bool,
    pub hits_first: bool,
    pub hits_second: bool,
}

/// How a frame ends for the two tanks and the shots in flight.
pub struct Frame {
    /// Some shot hit the first tank this frame.
    pub first_hit: bool,
    /// Some shot hit the second tank this frame.
    pub second_hit: bool,
    /// The first tank is destroyed after this frame.
    pub first_destroyed: bool,
    /// The second tank is destroyed after this frame.
    pub second_destroyed: bool,
    /// For each shot, in order, whether it leaves play at the end of the frame.
    pub remove: Vec<bool>,
}

/// Some shot in `shots` hits the first tank.
pub open spec fn any_hits_first(shots: Seq<ShotReport>) -> bool {
    exists|i: int| 0 <= i < shots.len() && (#[trigger] shots[i]).hits_first
}

/// Some shot in `shots` hits the second tank.
pub open spec fn any_hits_second(shots: Seq<ShotReport>) -> bool {
    exists|i: int| 0 <= i < shots.len() && (#[trigger] shots[i]).hits_second
}

/// A tank counts as hit exactly when at least one shot reports hitting it,
/// however many shots do and whatever the other shots hit.
pub proof fn lemma_hit_iff_some_shot_hits(shots: Seq<ShotReport>)
    ensures
        forall|i: int| 0 <= i < shots.len() && (#[trigger] shots[i]).hits_first ==> any_hits_first(shots),
        forall|i: int| 0 <= i < shots.len() && (#[trigger] shots[i]).hits_second ==> any_hits_second(shots),
        any_hits_first(shots) ==> exists|i: int| 0 <= i < shots.len() && (#[trigger] shots[i]).hits_first,
        any_hits_second(shots) ==> exists|i: int| 0 <= i < shots.len() && (#[trigger] shots[i]).hits_second,
{
}

/// One more shot in the frame: a tank is hit after it exactly when it was hit
/// before or the new shot hits it. Hits never cancel each other out.
pub proof fn lemma_hit_with_one_more_shot(shots: Seq<ShotReport>, r: ShotReport)
    ensures
        any_hits_first(shots.push(r)) == (any_hits_first(shots) || r.hits_first),
        any_hits_second(shots.push(r)) == (any_hits_second(shots) || r.hits_second),
{
    let t = shots.push(r);
    if any_hits_first(shots) {
        let i = choose|i: int| 0 <= i < shots.len() && (#[trigger] shots[i]).hits_first;
        assert(t[i] == shots[i]);
    }
    if r.hits_first {
        assert(t[shots.len() as int] == r);
    }
    if any_hits_first(t) {
        let i = choose|i: int| 0 <= i < t.len() && (#[trigger] t[i]).hits_first;
        if i < shots.len() {
            assert(t[i] == shots[i]);
        }
    }
    if any_hits_second(shots) {
        let i = choose|i: int| 0 <= i < shots.len() && (#[trigger] shots[i]).hits_second;
        assert(t[i] == shots[i]);
    }
    if r.hits_second {
        assert(t[shots.len() as int] == r);
    }
    if any_hits_second(t) {
        let i = choose|i: int| 0 <= i < t.len() && (#[trigger] t[i]).hits_second;
        if i < shots.len() {
            assert(t[i] == shots[i]);
        }
    }
}

/// A shot leaves play when it was marked already or when it hit a tank.
pub open spec fn leaves_play(r: ShotReport) -> bool {
    r.to_be_removed || r.hits_first || r.hits_second
}

/// Settles the shots in flight against the two tanks: a tank that a shot
/// hits is destroyed, and stays destroyed; a shot that hits a tank leaves
/// play.
pub fn resolve_hits(first_destroyed: bool, second_destroyed: bool, shots: &Vec<ShotReport>) -> (f:
    Frame)
    ensures
        f.first_hit == any_hits_first(shots@),
        f.second_hit == any_hits_second(shots@),
        f.first_destroyed == (first_destroyed || f.first_hit),
        f.second_destroyed == (second_destroyed || f.second_hit),
        forall|i: int|
            0 <= i < shots@.len() && (#[trigger] shots@[i]).hits_first ==> f.first_hit
                && f.first_destroyed,
        forall|i: int|
            0 <= i < shots@.len() && (#[trigger] shots@[i]).hits_second ==> f.second_hit
                && f.second_destroyed,
        f.first_hit ==> exists|i: int| 0 <= i < shots@.len() && (#[trigger] shots@[i]).hits_first,
        f.second_hit ==> exists|i: int| 0 <= i < shots@.len() && (#[trigger] shots@[i]).hits_second,
        !first_destroyed && (forall|i: int| 0 <= i < shots@.len() ==> !(#[trigger] shots@[i]).hits_first)
            ==> !f.first_destroyed,
        !second_destroyed && (forall|i: int| 0 <= i < shots@.len() ==> !(#[trigger] shots@[i]).hits_second)
            ==> !f.second_destroyed,
        f.remove@.len() == shots@.len(),
        forall|i: int| 0 <= i < shots@.len() ==> f.remove@[i] == leaves_play(#[trigger] shots@[i]),
{
    let mut first_hit = false;
    let mut second_hit = false;
    let mut remove: Vec<bool> = Vec::new();
    let n = shots.len();
    for i in 0..n
        invariant
            n == shots@.len(),
            remove@.len() == i,
            forall|j: int| 0 <= j < i ==> remove@[j] == leaves_play(#[trigger] shots@[j]),
            first_hit == exists|j: int| 0 <= j < i && (#[trigger] shots@[j]).hits_first,
            second_hit == exists|j: int| 0 <= j < i && (#[trigger] shots@[j]).hits_second,
    {
        let r = shots[i];
        if r.hits_first {
            first_hit = true;
        }
        if r.hits_second {
            second_hit = true;
        }
        remove.push(r.to_be_removed || r.hits_first || r.hits_second);
    }
    Frame {
        first_hit,
        second_hit,
        first_destroyed: first_destroyed || first_hit,
        second_destroyed: second_destroyed || second_hit,
        remove,
    }
}

/// The items whose flag is false, in their order.
pub open spec fn kept<T>(items: Seq<T>, flags: Seq<bool>) -> Seq<T>
    decreases items.len(),
{
    if items.len() == 0 {
        Seq::empty()
    } else {
        let rest = kept(items.drop_last(), flags.drop_last());
        if flags.last() {
            rest
        } else {
            rest.push(items.last())
        }
    }
}

/// Keeping some of the items never yields more than there were.
pub proof fn lemma_kept_len<T>(items: Seq<T>, flags: Seq<bool>)
    ensures
        kept(items, flags).len() <= items.len(),
    decreases items.len(),
{
    if items.len() > 0 {
        lemma_kept_len(items.drop_last(), flags.drop_last());
    }
}

proof fn lemma_kept_step<T>(items: Seq<T>, flags: Seq<bool>, j: int)
    requires
        0 <= j < items.len(),
        items.len() == flags.len(),
    ensures
        kept(items.take(j + 1), flags.take(j + 1)) == if flags[j] {
            kept(items.take(j), flags.take(j))
        } else {
            kept(items.take(j), flags.take(j)).push(items[j])
        },
{
    assert(items.take(j + 1).drop_last() =~= items.take(j));
    assert(flags.take(j + 1).drop_last() =~= flags.take(j));
}

/// Drops from `items` each item whose flag in `remove` is set, keeping the
/// others in their order.
pub fn retain_unremoved<T>(items: &mut Vec<T>, remove: &Vec<bool>)
    requires
        old(items)@.len() == remove@.len(),
    ensures
        final(items)@ == kept(old(items)@, remove@),
{
    let ghost orig = items@;
    let n = remove.len();
    let mut i: usize = 0;
    let mut j: usize = 0;
    while j < n
        invariant
            n == remove@.len(),
            orig.len() == n,
            j <= n,
            i as int == kept(orig.take(j as int), remove@.take(j as int)).len(),
            items@ =~= kept(orig.take(j as int), remove@.take(j as int)) + orig.skip(j as int),
        decreases n - j,
    {
        proof {
            lemma_kept_step(orig, remove@, j as int);
            lemma_kept_len(orig.take(j as int), remove@.take(j as int));
        }
        if remove[j] {
            assert(items@[i as int] == orig[j as int]);
            items.remove(i);
            assert(orig.skip(j as int).drop_first() =~= orig.skip(j + 1));
        } else {
            assert(orig.skip(j as int).drop_first() =~= orig.skip(j + 1));
            i = i + 1;
        }
        j = j + 1;
    }
    assert(orig.take(n as int) =~= orig);
    assert(remove@.take(n as int) =~= remove@);
}

/// The number of false flags.
pub open spec fn count_unset(flags: Seq<bool>) -> nat
    decreases flags.len(),
{
    if flags.len() == 0 {
        0
    } else {
        count_unset(flags.drop_last()) + if flags.last() {
            0nat
        } else {
            1nat
        }
    }
}

/// What is kept is exactly the items whose flag is false: each of them is
/// kept, each kept item is one of them, and there are as many kept items as
/// false flags.
pub proof fn lemma_kept_exactly_unflagged<T>(items: Seq<T>, flags: Seq<bool>)
    requires
        items.len() == flags.len(),
    ensures
        forall|i: int|
            0 <= i < items.len() && !flags[i] ==> kept(items, flags).contains(#[trigger] items[i]),
        forall|x: T|
            #[trigger] kept(items, flags).contains(x) ==> exists|i: int|
                0 <= i < items.len() && !flags[i] && items[i] == x,
        kept(items, flags).len() == count_unset(flags),
    decreases items.len(),
{
    if items.len() > 0 {
        let n = items.len() - 1;
        let ip = items.drop_last();
        let fp = flags.drop_last();
        lemma_kept_exactly_unflagged(ip, fp);
        let rest = kept(ip, fp);
        let k = kept(items, flags);
        assert forall|i: int| 0 <= i < items.len() && !flags[i] implies k.contains(
            #[trigger] items[i],
        ) by {
            if i < n {
                assert(ip[i] == items[i]);
                let w = choose|w: int| 0 <= w < rest.len() && rest[w] == ip[i];
                if flags.last() {
                    assert(k[w] == items[i]);
                } else {
                    assert(k[w] == items[i]);
                }
            } else {
                assert(k[k.len() - 1] == items[i]);
            }
        }
        assert forall|x: T| #[trigger] k.contains(x) implies exists|i: int|
            0 <= i < items.len() && !flags[i] && items[i] == x by {
            let w = choose|w: int| 0 <= w < k.len() && k[w] == x;
            if w < rest.len() {
                assert(rest[w] == x);
                assert(rest.contains(x));
                let i = choose|i: int| 0 <= i < ip.len() && !fp[i] && ip[i] == x;
                assert(items[i] == x && !flags[i]);
            } else {
                assert(items[n] == x && !flags[n]);
            }
        }
    }
}

/// After a frame is settled and the removed shots dropped, the shots left
/// in play are exactly those that were not marked and hit neither tank.
pub proof fn lemma_survivors_missed<T>(items: Seq<T>, shots: Seq<ShotReport>, remove: Seq<bool>)
    requires
        items.len() == shots.len(),
        remove.len() == shots.len(),
        forall|i: int| 0 <= i < shots.len() ==> remove[i] == leaves_play(#[trigger] shots[i]),
    ensures
        forall|x: T|
            #[trigger] kept(items, remove).contains(x) ==> exists|i: int|
                0 <= i < items.len() && items[i] == x && !shots[i].to_be_removed
                    && !shots[i].hits_first && !shots[i].hits_second,
        forall|i: int|
            0 <= i < items.len() && !leaves_play(shots[i]) ==> kept(items, remove).contains(
                #[trigger] items[i],
            ),
{
    lemma_kept_exactly_unflagged(items, remove);
    assert forall|x: T| #[trigger] kept(items, remove).contains(x) implies exists|i: int|
        0 <= i < items.len() && items[i] == x && !shots[i].to_be_removed && !shots[i].hits_first
            && !shots[i].hits_second by {
        let i = choose|i: int| 0 <= i < items.len() && !remove[i] && items[i] == x;
        assert(remove[i] == leaves_play(shots[i]));
    }
    assert forall|i: int| 0 <= i < items.len() && !leaves_play(shots[i]) implies kept(
        items,
        remove,
    ).contains(#[trigger] items[i]) by {
        assert(remove[i] == leaves_play(shots[i]));
    }
}

} // verus!
