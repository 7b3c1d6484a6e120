//! The pad promoter: makes a pad that appeared deep inside nested
//! containers reachable from the graph's own level.

use crate::command::{command_views, Command, CommandView};
use crate::text::lemma_prefix_cancel;
use crate::topology::{is_container, Attachment, Fault, PadView, Topology, TopologyView};
use vstd::prelude::*;
use vstd::string::StringExecFns;

verus! {

/// The name under which a pad called `pad_name`, carrying `media`, is
/// exposed at every level.
pub open spec fn exposed_name(media: Seq<char>, pad_name: Seq<char>) -> Seq<char> {
    media + "_"@ + pad_name
}

/// Writes [`exposed_name`].
pub fn ghost_pad_name(media: &str, pad_name: &str) -> (name: String)
    ensures
        name@ == exposed_name(media@, pad_name@),
{
    let mut name = String::from_str(media);
    name.append("_");
    name.append(pad_name);
    name
}

/// Tracks of one media kind are exposed under different names if their
/// inner pads have different names.
pub proof fn lemma_exposed_names_differ(media: Seq<char>, a: Seq<char>, b: Seq<char>)
    requires
        a != b,
    ensures
        exposed_name(media, a) != exposed_name(media, b),
{
    if exposed_name(media, a) == exposed_name(media, b) {
        assert(media + "_"@ + a =~= (media + "_"@) + a);
        lemma_prefix_cancel(media + "_"@, a, b);
    }
}

/// Tracks of different media kinds are exposed under different names,
/// whatever their inner pads are called, as long as no kind has an
/// underscore in it.
pub proof fn lemma_exposed_names_differ_across_media(
    m1: Seq<char>,
    a: Seq<char>,
    m2: Seq<char>,
    b: Seq<char>,
)
    requires
        m1 != m2,
        !m1.contains('_'),
        !m2.contains('_'),
    ensures
        exposed_name(m1, a) != exposed_name(m2, b),
{
    reveal_strlit("_");
    let x = exposed_name(m1, a);
    let y = exposed_name(m2, b);
    if x == y {
        assert("_"@.len() == 1);
        assert("_"@[0] == '_');
        if m1.len() < m2.len() {
            assert(x[m1.len() as int] == '_');
            assert(y[m1.len() as int] == m2[m1.len() as int]);
            assert(m2.contains(m2[m1.len() as int]));
        } else if m2.len() < m1.len() {
            assert(y[m2.len() as int] == '_');
            assert(x[m2.len() as int] == m1[m2.len() as int]);
            assert(m1.contains(m1[m2.len() as int]));
        } else {
            assert forall|i: int| 0 <= i < m1.len() implies m1[i] == m2[i] by {
                assert(x[i] == m1[i]);
                assert(y[i] == m2[i]);
            }
            assert(m1 =~= m2);
        }
    }
}

/// The containers around element `e`, innermost first, up to the one
/// that lies directly in the graph. The graph itself is not among them.
pub open spec fn containers(t: TopologyView, e: usize) -> Seq<usize>
    decreases e,
{
    match t.elements[e as int].parent {
        Some(p) => if 0 < p < e {
            seq![p] + containers(t, p)
        } else {
            Seq::empty()
        },
        None => Seq::empty(),
    }
}

/// The commands that expose `first` on each of `levels` in turn: on the
/// innermost a ghost pad that forwards to `first`, on every further one a
/// ghost pad that forwards to the ghost pad of the level before. `next`
/// is the index that the first new pad takes.
pub open spec fn ascent(levels: Seq<usize>, name: Seq<char>, first: usize, next: usize) -> Seq<
    CommandView,
> {
    Seq::new(
        levels.len(),
        |i: int|
            CommandView::Expose {
                container: levels[i],
                name,
                target: if i == 0 {
                    first
                } else {
                    (next + i - 1) as usize
                },
                pad: (next + i) as usize,
            },
    )
}

/// The topology after `first` was exposed on each of `levels`: one ghost
/// pad more per level, each the target of the next, the outermost free.
pub open spec fn promoted(t: TopologyView, levels: Seq<usize>, name: Seq<char>, first: usize) -> TopologyView {
    let m = t.pads.len() as int;
    let d = levels.len() as int;
    TopologyView {
        elements: t.elements,
        pads: Seq::new(
            (m + d) as nat,
            |k: int|
                if k == first && d > 0 {
                    PadView { attachment: Attachment::Exposed(m as usize), ..t.pads[k] }
                } else if k < m {
                    t.pads[k]
                } else {
                    PadView {
                        owner: levels[k - m],
                        name,
                        direction: t.pads[first as int].direction,
                        attachment: if k + 1 < m + d {
                            Attachment::Exposed((k + 1) as usize)
                        } else {
                            Attachment::Free
                        },
                        target: Some(
                            if k == m {
                                first
                            } else {
                                (k - 1) as usize
                            },
                        ),
                    }
                },
        ),
    }
}

/// `levels` is a path of containers, each directly inside the next, on
/// none of which `name` is taken.
pub open spec fn climbable(t: TopologyView, levels: Seq<usize>, name: Seq<char>) -> bool {
    &&& forall|i: int|
        0 <= i < levels.len() ==> {
            &&& t.has_element(#[trigger] levels[i])
            &&& is_container(t.elements[levels[i] as int].kind)
            &&& !t.name_taken(levels[i], name)
        }
    &&& forall|i: int|
        0 <= i < levels.len() - 1 ==> t.elements[(#[trigger] levels[i]) as int].parent == Some(
            levels[i + 1],
        )
    &&& forall|i: int, j: int| 0 <= i < j < levels.len() ==> levels[i] != levels[j]
}

/// Name `name` is taken on one of `levels`.
pub open spec fn blocked(t: TopologyView, levels: Seq<usize>, name: Seq<char>) -> bool {
    exists|i: int| 0 <= i < levels.len() && t.name_taken(#[trigger] levels[i], name)
}

/// Why pad `pad` cannot be promoted under `name`, if it cannot.
pub open spec fn promotion_fault(t: TopologyView, pad: usize, name: Seq<char>) -> Option<Fault> {
    let levels = containers(t, t.pads[pad as int].owner);
    if !t.has_pad(pad) {
        Some(Fault::UnknownPad)
    } else if t.pads[pad as int].attachment != Attachment::Free {
        Some(Fault::Occupied)
    } else if levels.len() == 0 {
        Some(Fault::NotNested)
    } else if blocked(t, levels, name) {
        Some(Fault::NameTaken)
    } else if t.pads.len() + levels.len() > usize::MAX {
        Some(Fault::Exhausted)
    } else {
        None
    }
}

/// The commands that promote pad `pad` under `name`.
pub open spec fn promotion_plan(t: TopologyView, pad: usize, name: Seq<char>) -> Seq<CommandView> {
    ascent(containers(t, t.pads[pad as int].owner), name, pad, t.pads.len() as usize)
}

/// The containers around an element form a path of containers that ends
/// directly inside the graph, and all of them came before the element.
pub proof fn lemma_containers_path(t: TopologyView, e: usize)
    requires
        t.wf(),
        t.has_element(e),
    ensures
        forall|i: int|
            0 <= i < containers(t, e).len() ==> {
                &&& 0 < (#[trigger] containers(t, e)[i]) < e
                &&& is_container(t.elements[containers(t, e)[i] as int].kind)
            },
        forall|i: int|
            0 <= i < containers(t, e).len() - 1 ==> t.elements[(#[trigger] containers(
                t,
                e,
            )[i]) as int].parent == Some(containers(t, e)[i + 1]),
        forall|i: int, j: int|
            0 <= i < j < containers(t, e).len() ==> containers(t, e)[i] > containers(t, e)[j],
        containers(t, e).len() > 0 ==> t.elements[e as int].parent == Some(containers(t, e)[0])
            && t.elements[containers(t, e).last() as int].parent == Some(0usize),
    decreases e,
{
    assert(t.element_ok(e as int));
    match t.elements[e as int].parent {
        Some(p) => {
            if 0 < p < e {
                lemma_containers_path(t, p);
                let rest = containers(t, p);
                let all = containers(t, e);
                assert(all =~= seq![p] + rest);
                assert(t.element_ok(p as int));
                assert forall|i: int| 0 <= i < all.len() implies {
                    &&& 0 < (#[trigger] all[i]) < e
                    &&& is_container(t.elements[all[i] as int].kind)
                } by {
                    if i > 0 {
                        assert(all[i] == rest[i - 1]);
                    }
                }
                assert forall|i: int| 0 <= i < all.len() - 1 implies t.elements[(
                #[trigger] all[i]) as int].parent == Some(all[i + 1]) by {
                    assert(all[i + 1] == rest[i]);
                    if i > 0 {
                        assert(all[i] == rest[i - 1]);
                    }
                }
                assert forall|i: int, j: int| 0 <= i < j < all.len() implies all[i] > all[j] by {
                    assert(all[j] == rest[j - 1]);
                    if i > 0 {
                        assert(all[i] == rest[i - 1]);
                    }
                }
                if rest.len() > 0 {
                    assert(all.last() == rest.last());
                } else {
                    assert(all.last() == p);
                }
            }
        },
        None => {},
    }
}

/// Exposing a free pad on a path of containers, level by level, is never
/// refused, and leaves the topology that [`promoted`] describes.
pub proof fn lemma_ascent_runs(t: TopologyView, levels: Seq<usize>, name: Seq<char>, first: usize)
    requires
        t.wf(),
        t.has_pad(first),
        t.pads[first as int].attachment == Attachment::Free,
        levels.len() > 0 ==> t.level_of(first) == Some(levels[0]),
        climbable(t, levels, name),
        t.pads.len() + levels.len() <= usize::MAX,
    ensures
        t.run(ascent(levels, name, first, t.pads.len() as usize)).fault is None,
        t.run(ascent(levels, name, first, t.pads.len() as usize)).topology == promoted(
            t,
            levels,
            name,
            first,
        ),
    decreases levels.len(),
{
    let m = t.pads.len() as usize;
    let plan = ascent(levels, name, first, m);
    if levels.len() == 0 {
        assert(promoted(t, levels, name, first).pads =~= t.pads);
    } else {
        let c = levels[0];
        let rest = levels.drop_first();
        let step = CommandView::Expose { container: c, name, target: first, pad: m };
        assert(plan[0] == step);
        assert(t.has_element(levels[0]) && is_container(t.elements[levels[0] as int].kind)
            && !t.name_taken(levels[0], name));
        assert(t.fault(step) is None);
        crate::command::lemma_exposed_keeps_wf(t, c, name, first);
        let u = t.ghosted(c, name, first);
        assert(plan.drop_first() =~= ascent(rest, name, m, (m + 1) as usize));
        assert(u.pads[m as int].owner == c);
        assert forall|i: int| 0 <= i < rest.len() implies {
            &&& u.has_element(#[trigger] rest[i])
            &&& is_container(u.elements[rest[i] as int].kind)
            &&& !u.name_taken(rest[i], name)
        } by {
            assert(rest[i] == levels[i + 1]);
            assert(levels[0] != levels[i + 1]);
            if u.name_taken(rest[i], name) {
                let k = choose|k: int|
                    0 <= k < u.pads.len() && (#[trigger] u.pads[k]).owner == rest[i]
                        && u.pads[k].name == name;
                assert(k < m);
                assert(t.pads[k].owner == rest[i] && t.pads[k].name == name);
                assert(t.name_taken(levels[i + 1], name));
            }
        }
        assert forall|i: int| 0 <= i < rest.len() - 1 implies u.elements[(
        #[trigger] rest[i]) as int].parent == Some(rest[i + 1]) by {
            assert(rest[i] == levels[i + 1]);
            assert(rest[i + 1] == levels[i + 2]);
        }
        assert forall|i: int, j: int| 0 <= i < j < rest.len() implies rest[i] != rest[j] by {
            assert(rest[i] == levels[i + 1]);
            assert(rest[j] == levels[j + 1]);
        }
        if rest.len() > 0 {
            assert(rest[0] == levels[1]);
            assert(t.elements[levels[0] as int].parent == Some(levels[1]));
        }
        lemma_ascent_runs(u, rest, name, m);
        let got = promoted(u, rest, name, m);
        let want = promoted(t, levels, name, first);
        assert(got.pads.len() == want.pads.len());
        assert forall|k: int| 0 <= k < want.pads.len() implies got.pads[k] == want.pads[k] by {
            if k > m {
                assert(rest[k - m - 1] == levels[k - m]);
            }
        }
        assert(got.pads =~= want.pads);
    }
}

/// The containers around a pad that can be promoted are a path on which
/// the name is free at every level.
pub proof fn lemma_promotable_is_climbable(t: TopologyView, pad: usize, name: Seq<char>)
    requires
        t.wf(),
        promotion_fault(t, pad, name) is None,
    ensures
        climbable(t, containers(t, t.pads[pad as int].owner), name),
        t.level_of(pad) == Some(containers(t, t.pads[pad as int].owner)[0]),
{
    let owner = t.pads[pad as int].owner;
    let levels = containers(t, owner);
    assert(t.pad_ok(pad as int));
    lemma_containers_path(t, owner);
    assert forall|i: int| 0 <= i < levels.len() implies {
        &&& t.has_element(#[trigger] levels[i])
        &&& is_container(t.elements[levels[i] as int].kind)
        &&& !t.name_taken(levels[i], name)
    } by {}
}

/// A pad that was promoted is not promoted again: it is exposed already.
pub proof fn lemma_promoted_pad_is_refused(
    t: TopologyView,
    levels: Seq<usize>,
    name: Seq<char>,
    pad: usize,
    again: Seq<char>,
)
    requires
        t.has_pad(pad),
        levels.len() > 0,
    ensures
        promotion_fault(promoted(t, levels, name, pad), pad, again) == Some(Fault::Occupied),
{
}

/// Promotion ends at the graph's level: the outermost ghost pad is free,
/// forwards in the direction of the pad that was promoted, and is on a
/// container that lies directly in the graph. Every ghost pad forwards to
/// the pad one level further in, so no level is skipped.
pub proof fn lemma_promotion_reaches_graph_level(t: TopologyView, pad: usize, name: Seq<char>)
    requires
        t.wf(),
        promotion_fault(t, pad, name) is None,
    ensures
        ({
            let levels = containers(t, t.pads[pad as int].owner);
            let u = promoted(t, levels, name, pad);
            let m = t.pads.len() as int;
            let top = (m + levels.len() - 1) as usize;
            &&& u.wf()
            &&& u.has_pad(top)
            &&& u.pads[top as int].attachment == Attachment::Free
            &&& u.pads[top as int].direction == t.pads[pad as int].direction
            &&& u.level_of(top) == Some(0usize)
            &&& forall|i: int|
                0 <= i < levels.len() ==> u.level_of(
                    (#[trigger] u.pads[m + i]).target->0,
                ) == Some(u.pads[m + i].owner)
        }),
{
    let owner = t.pads[pad as int].owner;
    let levels = containers(t, owner);
    let u = promoted(t, levels, name, pad);
    let m = t.pads.len() as int;
    assert(t.pad_ok(pad as int));
    lemma_containers_path(t, owner);
    lemma_promotable_is_climbable(t, pad, name);
    lemma_ascent_runs(t, levels, name, pad);
    crate::command::lemma_run_keeps_wf(t, ascent(levels, name, pad, m as usize));
    assert forall|i: int| 0 <= i < levels.len() implies u.level_of(
        (#[trigger] u.pads[m + i]).target->0,
    ) == Some(u.pads[m + i].owner) by {
        if i > 0 {
            assert(t.elements[levels[i - 1] as int].parent == Some(levels[i]));
        }
    }
}

impl Topology {
    /// The containers around element `e`, innermost first, without the
    /// graph.
    pub fn levels_above(&self, e: usize) -> (levels: Vec<usize>)
        requires
            self.wf(),
            self@.has_element(e),
        ensures
            levels@ == containers(self@, e),
    {
        let mut levels: Vec<usize> = Vec::new();
        let mut at: usize = e;
        loop
            invariant
                self.wf(),
                self@.has_element(at),
                containers(self@, e) == levels@ + containers(self@, at),
            ensures
                levels@ == containers(self@, e),
            decreases at,
        {
            proof {
                assert(self@.element_ok(at as int));
            }
            let parent = match self.element(at) {
                Some(element) => element.parent,
                None => None,
            };
            match parent {
                Some(p) => {
                    if 0 < p && p < at {
                        proof {
                            assert(levels@.push(p) + containers(self@, p) =~= levels@ + (seq![p]
                                + containers(self@, p)));
                        }
                        levels.push(p);
                        at = p;
                    } else {
                        proof {
                            assert(levels@ + Seq::<usize>::empty() =~= levels@);
                        }
                        break;
                    }
                },
                None => {
                    proof {
                        assert(levels@ + Seq::<usize>::empty() =~= levels@);
                    }
                    break;
                },
            }
        }
        levels
    }

    /// Promotes the free pad `pad`, which carries `media`: on every
    /// container around the pad's element, from the innermost outward, a
    /// ghost pad is added that forwards to the pad of the level before,
    /// until the pad is exposed on a container that lies directly in the
    /// graph. Every ghost pad is called after the media kind and the
    /// pad's own name. Returns the commands that do this to the real
    /// graph; on a fault nothing is changed.
    pub fn promote(&mut self, pad: usize, media: &str) -> (r: Result<Vec<Command>, Fault>)
        requires
            old(self).wf(),
        ensures
            final(self).wf(),
            final(self)@.extends(old(self)@),
            ({
                let t = old(self)@;
                let name = exposed_name(media@, t.pads[pad as int].name);
                match promotion_fault(t, pad, name) {
                    Some(f) => r == Err::<Vec<Command>, Fault>(f) && final(self)@ == t,
                    None => {
                        &&& r is Ok
                        &&& command_views(r->Ok_0@) == promotion_plan(t, pad, name)
                        &&& final(self)@ == promoted(
                            t,
                            containers(t, t.pads[pad as int].owner),
                            name,
                            pad,
                        )
                    },
                }
            }),
    {
        let ghost t = self@;
        let (owner, attachment, name) = match self.pad(pad) {
            Some(found) => (
                found.owner,
                found.attachment,
                ghost_pad_name(media, found.name.as_str()),
            ),
            None => {
                return Err(Fault::UnknownPad);
            },
        };
        if attachment != Attachment::Free {
            return Err(Fault::Occupied);
        }
        proof {
            assert(t.pad_ok(pad as int));
            lemma_containers_path(t, owner);
        }
        let levels = self.levels_above(owner);
        let depth = levels.len();
        if depth == 0 {
            return Err(Fault::NotNested);
        }
        let mut i: usize = 0;
        while i < depth
            invariant
                i <= depth,
                depth == levels.len(),
                depth > 0,
                self@ == t,
                self.wf(),
                t.has_pad(pad),
                t.pads[pad as int].attachment == Attachment::Free,
                levels@ == containers(t, t.pads[pad as int].owner),
                name@ == exposed_name(media@, t.pads[pad as int].name),
                forall|j: int| 0 <= j < i ==> !t.name_taken(#[trigger] levels@[j], name@),
            decreases depth - i,
        {
            if self.is_name_taken(levels[i], name.as_str()) {
                return Err(Fault::NameTaken);
            }
            i += 1;
        }
        let first_new = self.pad_count();
        if first_new > usize::MAX - depth {
            return Err(Fault::Exhausted);
        }
        let mut plan: Vec<Command> = Vec::new();
        let mut i: usize = 0;
        while i < depth
            invariant
                i <= depth,
                depth == levels.len(),
                first_new + depth <= usize::MAX,
                plan.len() == i,
                forall|j: int|
                    0 <= j < i ==> (#[trigger] plan@[j])@ == ascent(
                        levels@,
                        name@,
                        pad,
                        first_new,
                    )[j],
            decreases depth - i,
        {
            let target = if i == 0 {
                pad
            } else {
                first_new + i - 1
            };
            plan.push(
                Command::Expose {
                    container: levels[i],
                    name: name.clone(),
                    target,
                    pad: first_new + i,
                },
            );
            i += 1;
        }
        proof {
            assert(command_views(plan@) =~= ascent(levels@, name@, pad, first_new));
            assert(climbable(t, levels@, name@));
            lemma_ascent_runs(t, levels@, name@, pad);
        }
        match self.apply_all(&plan) {
            Ok(()) => Ok(plan),
            Err(f) => Err(f),
        }
    }
}

} // verus!
