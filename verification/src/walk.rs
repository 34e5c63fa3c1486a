//! The work stack of a render pass, and what it stands for.

use vstd::prelude::*;
use crate::nodes::{children_events, events, AstNode, Context, Event, NodeValue, Visit};
use crate::options::ComrakOptions;
use crate::rules::{
    definitions_entered,
    html_run,
    lemma_definitions_entered_concat,
    lemma_footnote_count,
    visit_ok,
    FormatterView,
};
use crate::slide::{
    headings_entered,
    lemma_headings_entered_concat,
    lemma_slide_run_counts,
    slide_run,
    SlideView,
};

verus! {

/// The two phases of rendering a node.
#[derive(Debug, Clone, Copy, PartialEq, Eq)]
pub enum Phase {
    /// Before the children: the node is yet to be visited.
    Pre,
    /// After the children: the node is yet to be left.
    Post,
}

/// An entry of the work stack: a node, its place, the mode it is rendered
/// in and the phase that is due.
#[derive(Debug, Clone, Copy)]
pub struct Frame<'a> {
    /// The node.
    pub node: &'a AstNode,
    /// Where the node stands.
    pub ctx: Context<'a>,
    /// Whether the node is rendered in plain mode.
    pub plain: bool,
    /// The phase that is due.
    pub phase: Phase,
}

/// The visits that an entry of the work stack stands for.
pub open spec fn frame_events<'a>(frame: Frame<'a>) -> Seq<Event<'a>> {
    match frame.phase {
        Phase::Pre => events(frame.node, frame.ctx, frame.plain),
        Phase::Post => seq![Event { node: frame.node, ctx: frame.ctx, visit: Visit::Exit }],
    }
}

/// The visits that a work stack stands for, from its top down.
pub open spec fn stack_events<'a>(stack: Seq<Frame<'a>>) -> Seq<Event<'a>>
    decreases stack.len(),
{
    if stack.len() == 0 {
        Seq::<Event<'a>>::empty()
    } else {
        frame_events(stack.last()) + stack_events(stack.drop_last())
    }
}

/// Whether a visit can be made in the given state: the node can be visited
/// at its place, and the counter that the visit advances, of footnote
/// definitions or of headings, has room.
pub open spec fn step_ok(s: FormatterView, dom: SlideView, ev: Event) -> bool {
    match ev.visit {
        Visit::Plain => true,
        Visit::Enter => {
            &&& visit_ok(ev.node, ev.ctx, true)
            &&& ev.node.value is FootnoteDefinition ==> s.footnote_ix < u32::MAX
            &&& ev.node.value is Heading ==> dom.pending_level < u64::MAX
        },
        Visit::Exit => visit_ok(ev.node, ev.ctx, false),
    }
}

/// Whether a run of visits can be made from the given state: each visit
/// can be made in the state that the visits before it lead to.
pub open spec fn can_render(
    options: &ComrakOptions,
    s: FormatterView,
    dom: SlideView,
    evs: Seq<Event>,
) -> bool {
    forall|i: int|
        0 <= i < evs.len() ==> step_ok(
            html_run(options, s, #[trigger] evs.take(i)),
            slide_run(options, dom, evs.take(i)),
            evs[i],
        )
}

/// Pushing a frame puts its visits before those of the stack.
pub proof fn lemma_stack_push<'a>(stack: Seq<Frame<'a>>, frame: Frame<'a>)
    ensures
        stack_events(stack.push(frame)) == frame_events(frame) + stack_events(stack),
{
    assert(stack.push(frame).drop_last() =~= stack);
}

/// Whether the node of a visit can be visited at its place.
pub open spec fn event_ok(ev: Event) -> bool {
    match ev.visit {
        Visit::Plain => true,
        Visit::Enter => visit_ok(ev.node, ev.ctx, true),
        Visit::Exit => visit_ok(ev.node, ev.ctx, false),
    }
}

/// Whether every node of a run of visits can be visited at its place.
pub open spec fn visits_ok(evs: Seq<Event>) -> bool {
    forall|i: int| 0 <= i < evs.len() ==> event_ok(#[trigger] evs[i])
}

/// Whether a tree can be rendered by a fresh pass: every node can be
/// visited at its place, and the footnote definitions and the headings
/// that the pass enters can be counted.
pub open spec fn renderable(node: &AstNode, ctx: Context, plain: bool) -> bool {
    &&& visits_ok(events(node, ctx, plain))
    &&& definitions_entered(events(node, ctx, plain)) <= u32::MAX
    &&& headings_entered(events(node, ctx, plain)) <= u64::MAX
}

/// The counters of a part of a run are no more than those of the run.
pub proof fn lemma_counts_prefix(evs: Seq<Event>, i: int)
    requires
        0 <= i <= evs.len(),
    ensures
        definitions_entered(evs.take(i)) <= definitions_entered(evs),
        headings_entered(evs.take(i)) <= headings_entered(evs),
{
    assert(evs =~= evs.take(i) + evs.skip(i));
    lemma_definitions_entered_concat(evs.take(i), evs.skip(i));
    lemma_headings_entered_concat(evs.take(i), evs.skip(i));
}

/// A run of visits can be made from a state where every node of the run
/// can be visited at its place and the two counters have room for the run.
pub proof fn lemma_can_render(
    options: &ComrakOptions,
    s: FormatterView,
    dom: SlideView,
    evs: Seq<Event>,
)
    requires
        visits_ok(evs),
        s.written_footnote_ix <= s.footnote_ix,
        s.footnote_ix + definitions_entered(evs) <= u32::MAX,
        dom.pending_level + headings_entered(evs) <= u64::MAX,
    ensures
        can_render(options, s, dom, evs),
{
    assert forall|i: int| 0 <= i < evs.len() implies step_ok(
        html_run(options, s, #[trigger] evs.take(i)),
        slide_run(options, dom, evs.take(i)),
        evs[i],
    ) by {
        lemma_footnote_count(options, s, evs.take(i));
        lemma_slide_run_counts(options, dom, evs.take(i));
        lemma_counts_prefix(evs, i + 1);
        assert(evs.take(i + 1).drop_last() =~= evs.take(i));
        assert(evs.take(i + 1).last() == evs[i]);
        assert(event_ok(evs[i]));
    }
}

/// Decides whether `node` can be visited at its place.
pub fn visit_allowed(node: &AstNode, ctx: Context, entering: bool) -> (ok: bool)
    ensures
        ok == visit_ok(node, ctx, entering),
{
    match &node.value {
        NodeValue::TableCell => {
            let in_row = match ctx.parent {
                Some(p) => match &p.value {
                    NodeValue::TableRow(_) => true,
                    _ => false,
                },
                None => false,
            };
            match ctx.grandparent {
                Some(g) => match &g.value {
                    NodeValue::Table(alignments) => in_row && (!entering || ctx.index
                        < alignments.len()),
                    _ => false,
                },
                None => false,
            }
        },
        NodeValue::Table(_) => entering || node.children.len() >= 1,
        NodeValue::Paragraph => {
            if entering {
                return true;
            }
            match ctx.parent {
                Some(_) => true,
                None => false,
            }
        },
        _ => true,
    }
}

/// Decides whether a tree can be rendered by a fresh pass. The walk is
/// that of the render pass itself, with its own stack of work.
pub fn can_format<'a>(node: &'a AstNode, ctx: Context<'a>, plain: bool) -> (ok: bool)
    ensures
        ok == renderable(node, ctx, plain),
{
    let ghost all = events(node, ctx, plain);
    let ghost mut done: Seq<Event<'a>> = Seq::empty();
    let mut definitions: u32 = 0;
    let mut headings: u64 = 0;
    let mut stack: Vec<Frame<'a>> = Vec::new();
    stack.push(Frame { node, ctx, plain, phase: Phase::Pre });
    proof {
        lemma_stack_push(Seq::<Frame<'a>>::empty(), stack@[0]);
        assert(stack@ =~= Seq::<Frame<'a>>::empty().push(stack@[0]));
        assert(done + stack_events(stack@) =~= all);
    }
    while stack.len() > 0
        invariant
            all == events(node, ctx, plain),
            done + stack_events(stack@) == all,
            visits_ok(done),
            definitions == definitions_entered(done),
            headings == headings_entered(done),
        decreases stack_events(stack@).len(),
    {
        let ghost before = stack@;
        let frame = stack.pop().unwrap();
        let ghost rest = stack@;
        let ghost ev = frame_events(frame)[0];
        proof {
            assert(before.drop_last() =~= rest);
            assert(stack_events(before) == frame_events(frame) + stack_events(rest));
            assert(all[done.len() as int] == ev);
            assert(all.take(done.len() as int + 1) =~= done.push(ev));
            assert(done.push(ev).drop_last() =~= done);
            lemma_counts_prefix(all, done.len() as int + 1);
        }
        match frame.phase {
            Phase::Pre => {
                if !frame.plain {
                    if !visit_allowed(frame.node, frame.ctx, true) {
                        assert(!event_ok(all[done.len() as int]));
                        return false;
                    }
                    match &frame.node.value {
                        NodeValue::FootnoteDefinition(_) => {
                            if definitions == u32::MAX {
                                return false;
                            }
                            definitions += 1;
                        },
                        NodeValue::Heading(_) => {
                            if headings == u64::MAX {
                                return false;
                            }
                            headings += 1;
                        },
                        _ => {},
                    }
                    stack.push(
                        Frame { node: frame.node, ctx: frame.ctx, plain: false, phase: Phase::Post },
                    );
                }
                let new_plain: bool = frame.plain || match &frame.node.value {
                    NodeValue::Image(_) => true,
                    _ => false,
                };
                let ghost base = stack@;
                let n: usize = frame.node.children.len();
                let mut i: usize = n;
                proof {
                    done = done.push(ev);
                    if !frame.plain {
                        lemma_stack_push(rest, stack@.last());
                    }
                    assert(children_events(frame.node, frame.ctx, new_plain, n as int)
                        =~= Seq::<Event<'a>>::empty());
                    assert(done + (children_events(frame.node, frame.ctx, new_plain, 0)
                        + stack_events(base)) =~= all);
                }
                while i > 0
                    invariant
                        i <= n,
                        n == frame.node.children@.len(),
                        stack_events(stack@) == children_events(
                            frame.node,
                            frame.ctx,
                            new_plain,
                            i as int,
                        ) + stack_events(base),
                    decreases i,
                {
                    i -= 1;
                    let child = Frame {
                        node: &frame.node.children[i],
                        ctx: frame.ctx.child(frame.node, i),
                        plain: new_plain,
                        phase: Phase::Pre,
                    };
                    proof {
                        lemma_stack_push(stack@, child);
                        assert(frame_events(child) + (children_events(
                            frame.node,
                            frame.ctx,
                            new_plain,
                            i + 1,
                        ) + stack_events(base)) =~= children_events(
                            frame.node,
                            frame.ctx,
                            new_plain,
                            i as int,
                        ) + stack_events(base));
                    }
                    stack.push(child);
                }
            },
            Phase::Post => {
                if !visit_allowed(frame.node, frame.ctx, false) {
                    assert(!event_ok(all[done.len() as int]));
                    return false;
                }
                proof {
                    done = done.push(ev);
                    assert(done + stack_events(rest) =~= all);
                }
            },
        }
    }
    proof {
        assert(done =~= all);
    }
    true
}

} // verus!
