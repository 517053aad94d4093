//! Which volumes have just been mounted, and where a camera answers.

use crate::naming::list_has;
use crate::text::{decimal, push_u64, views};
use vstd::prelude::*;

verus! {

/// The members of `now` that are not in `before`, in the order of `now`.
pub open spec fn appeared(before: Seq<Seq<char>>, now: Seq<Seq<char>>) -> Seq<Seq<char>>
    decreases now.len(),
{
    if now.len() == 0 {
        seq![]
    } else {
        let rest = appeared(before, now.drop_last());
        if before.contains(now.last()) {
            rest
        } else {
            rest.push(now.last())
        }
    }
}

/// The mounts in `now` that are not in `before`.
pub fn newly_appeared(before: &Vec<String>, now: &Vec<String>) -> (r: Vec<String>)
    ensures
        views(r@) == appeared(views(before@), views(now@)),
{
    let mut out: Vec<String> = Vec::new();
    let mut i: usize = 0;
    assert(views(out@) =~= seq![]);
    assert(views(now@).take(0) =~= seq![]);
    while i < now.len()
        invariant
            i <= now@.len(),
            views(out@) == appeared(views(before@), views(now@).take(i as int)),
        decreases now.len() - i,
    {
        let ghost done = views(now@).take(i as int);
        let ghost step = views(now@).take(i + 1);
        proof {
            assert(step.drop_last() =~= done);
            assert(step.last() == now@[i as int]@);
        }
        if !list_has(before, now[i].as_str()) {
            let ghost kept = views(out@);
            out.push(now[i].clone());
            assert(views(out@) =~= kept.push(now@[i as int]@));
        }
        i += 1;
    }
    assert(views(now@).take(i as int) =~= views(now@));
    out
}

/// A mount is reported iff it is there now and was not there before.
pub proof fn appeared_is_the_difference(before: Seq<Seq<char>>, now: Seq<Seq<char>>, p: Seq<char>)
    ensures
        appeared(before, now).contains(p) <==> now.contains(p) && !before.contains(p),
    decreases now.len(),
{
    if now.len() > 0 {
        let head = now.drop_last();
        let rest = appeared(before, head);
        appeared_is_the_difference(before, head, p);
        let all = appeared(before, now);
        if head.contains(p) {
            let i = choose|i: int| 0 <= i < head.len() && head[i] == p;
            assert(now[i] == p);
        }
        if now.contains(p) && !head.contains(p) {
            let i = choose|i: int| 0 <= i < now.len() && now[i] == p;
            if i < now.len() - 1 {
                assert(head[i] == p);
            }
            assert(now.last() == p);
        }
        if rest.contains(p) {
            let i = choose|i: int| 0 <= i < rest.len() && rest[i] == p;
            assert(all[i] == p);
        }
        if !before.contains(now.last()) {
            assert(all[all.len() - 1] == now.last());
            if all.contains(p) && !rest.contains(p) {
                let i = choose|i: int| 0 <= i < all.len() && all[i] == p;
                if i < rest.len() {
                    assert(rest[i] == p);
                }
                assert(p == now.last());
                assert(now[now.len() - 1] == p);
            }
        }
    }
}

/// Nothing new is reported when nothing changed.
pub proof fn no_change_reports_nothing(mounts: Seq<Seq<char>>)
    ensures
        appeared(mounts, mounts) =~= seq![],
{
    let a = appeared(mounts, mounts);
    if a.len() > 0 {
        appeared_is_the_difference(mounts, mounts, a[0]);
        assert(a.contains(a[0]));
    }
}

/// True of the networks that cameras use over USB: 172.20.0.0 to 172.29.255.255.
pub open spec fn usb_network(a: u8, b: u8) -> bool {
    a == 172 && 20 <= b <= 29
}

/// Where a camera answers on the network of this machine's address `a.b.c.x`: at
/// `a.b.c.51`. `None` if that is no network of a camera.
pub fn camera_address(a: u8, b: u8, c: u8) -> (r: Option<String>)
    ensures
        match r {
            Some(s) => usb_network(a, b) && s@ == decimal(a as nat) + "."@ + decimal(b as nat)
                + "."@ + decimal(c as nat) + ".51"@,
            None => !usb_network(a, b),
        },
{
    if !(a == 172 && 20 <= b && b <= 29) {
        return None;
    }
    let mut s = String::new();
    push_u64(&mut s, a as u64);
    assert(s@ =~= decimal(a as nat));
    s.append(".");
    push_u64(&mut s, b as u64);
    s.append(".");
    push_u64(&mut s, c as u64);
    s.append(".51");
    Some(s)
}

} // verus!
