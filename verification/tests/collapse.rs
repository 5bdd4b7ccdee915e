use collapsing::collapse::CollapsingBuilder;
use collapsing::style::StyleChain;
use std::cmp::Ordering;
use std::fmt::Debug;

/// A child of a flow, as far as collapsing is concerned.
#[derive(Debug, Clone, PartialEq)]
enum FlowChild {
    /// Vertical spacing between other children, in points.
    Spacing(f64),
    /// A block of content.
    Node(&'static str),
    /// A column break.
    Colbreak,
}

impl PartialOrd for FlowChild {
    fn partial_cmp(&self, other: &Self) -> Option<Ordering> {
        match (self, other) {
            (Self::Spacing(a), Self::Spacing(b)) => a.partial_cmp(b),
            _ => None,
        }
    }
}

fn test<T>(builder: CollapsingBuilder<T>, expected: &[T])
where
    T: Debug + PartialEq,
{
    let result = builder.finish().0;
    let items: Vec<_> = result.items();
    let expected: Vec<_> = expected.iter().collect();
    assert_eq!(items, expected);
}

fn node() -> FlowChild {
    FlowChild::Node("Hi")
}

fn abs(pt: f64) -> FlowChild {
    FlowChild::Spacing(pt)
}

#[test]
fn test_collapsing_weak() {
    let mut builder = CollapsingBuilder::new();
    let styles = StyleChain::default();
    builder.weak(FlowChild::Colbreak, styles, 0);
    builder.supportive(node(), styles);
    builder.weak(abs(10.0), styles, 0);
    builder.ignorant(FlowChild::Colbreak, styles);
    builder.weak(abs(20.0), styles, 0);
    builder.supportive(node(), styles);
    builder.weak(abs(10.0), styles, 0);
    builder.weak(abs(20.0), styles, 1);
    builder.supportive(node(), styles);
    test(builder, &[
        node(),
        FlowChild::Colbreak,
        abs(20.0),
        node(),
        abs(10.0),
        node(),
    ]);
}

#[test]
fn test_collapsing_destructive() {
    let mut builder = CollapsingBuilder::new();
    let styles = StyleChain::default();
    builder.supportive(node(), styles);
    builder.weak(abs(10.0), styles, 0);
    builder.destructive(FlowChild::Colbreak, styles);
    builder.weak(abs(20.0), styles, 0);
    builder.supportive(node(), styles);
    test(builder, &[node(), FlowChild::Colbreak, node()]);
}

#[test]
fn new_builder_is_empty_and_finishes_empty() {
    let builder: CollapsingBuilder<FlowChild> = CollapsingBuilder::new();
    assert!(builder.is_empty());
    assert!(builder.items().is_empty());
    let (finished, trunk) = builder.finish();
    assert!(finished.is_empty());
    assert_eq!(finished.len(), 0);
    assert_eq!(trunk, StyleChain::default());
}

#[test]
fn default_builder_is_a_new_builder() {
    let builder: CollapsingBuilder<u32> = CollapsingBuilder::default();
    assert!(builder.is_empty());
    test(builder, &[]);
}

#[test]
fn leading_weak_items_vanish() {
    let mut builder = CollapsingBuilder::new();
    let styles = StyleChain::default();
    builder.weak(abs(1.0), styles, 0);
    builder.weak(abs(2.0), styles, 3);
    builder.weak(FlowChild::Colbreak, styles, 1);
    assert!(builder.is_empty());
    builder.supportive(node(), styles);
    test(builder, &[node()]);
}

#[test]
fn leading_weak_items_vanish_around_ignorant_ones() {
    let mut builder = CollapsingBuilder::new();
    let styles = StyleChain::default();
    builder.weak(1u32, styles, 0);
    builder.ignorant(2, styles);
    builder.weak(3, styles, 0);
    assert_eq!(builder.items(), vec![&2]);
    builder.destructive(4, styles);
    test(builder, &[2, 4]);
}

#[test]
fn only_weak_items_finish_empty() {
    let mut builder = CollapsingBuilder::new();
    let styles = StyleChain::default();
    builder.weak(7u32, styles, 0);
    builder.weak(8, styles, 0);
    test(builder, &[]);
}

#[test]
fn trailing_weak_items_vanish() {
    let mut builder = CollapsingBuilder::new();
    let styles = StyleChain::default();
    builder.supportive(node(), styles);
    builder.weak(abs(10.0), styles, 1);
    builder.weak(abs(20.0), styles, 0);
    builder.weak(abs(30.0), styles, 0);
    assert!(!builder.is_empty());
    test(builder, &[node()]);
}

#[test]
fn trailing_weak_items_vanish_but_ignorant_ones_stay() {
    let mut builder = CollapsingBuilder::new();
    let styles = StyleChain::default();
    builder.destructive(1u32, styles);
    builder.supportive(2, styles);
    builder.weak(3, styles, 0);
    builder.ignorant(4, styles);
    builder.weak(5, styles, 0);
    builder.ignorant(6, styles);
    test(builder, &[1, 2, 4, 6]);
}

#[test]
fn destructive_cancels_pending_weak() {
    let mut builder = CollapsingBuilder::new();
    let styles = StyleChain::default();
    builder.supportive(node(), styles);
    builder.weak(abs(10.0), styles, 0);
    builder.destructive(FlowChild::Colbreak, styles);
    test(builder, &[node(), FlowChild::Colbreak]);
}

#[test]
fn supportive_preserves_pending_weak() {
    let mut builder = CollapsingBuilder::new();
    let styles = StyleChain::default();
    builder.supportive(FlowChild::Node("A"), styles);
    builder.weak(abs(10.0), styles, 0);
    builder.supportive(FlowChild::Node("B"), styles);
    test(builder, &[FlowChild::Node("A"), abs(10.0), FlowChild::Node("B")]);
}

#[test]
fn lower_strength_wins_when_it_comes_second() {
    let mut builder = CollapsingBuilder::new();
    let styles = StyleChain::default();
    builder.supportive(FlowChild::Node("A"), styles);
    builder.weak(abs(30.0), styles, 1);
    builder.weak(abs(5.0), styles, 0);
    builder.supportive(FlowChild::Node("B"), styles);
    test(builder, &[FlowChild::Node("A"), abs(5.0), FlowChild::Node("B")]);
}

#[test]
fn lower_strength_wins_when_it_comes_first() {
    let mut builder = CollapsingBuilder::new();
    let styles = StyleChain::default();
    builder.supportive(FlowChild::Node("A"), styles);
    builder.weak(abs(5.0), styles, 0);
    builder.weak(abs(30.0), styles, 1);
    builder.supportive(FlowChild::Node("B"), styles);
    test(builder, &[FlowChild::Node("A"), abs(5.0), FlowChild::Node("B")]);
}

#[test]
fn equal_strength_larger_item_wins() {
    let mut builder = CollapsingBuilder::new();
    let styles = StyleChain::default();
    builder.supportive(FlowChild::Node("A"), styles);
    builder.weak(abs(10.0), styles, 0);
    builder.weak(abs(20.0), styles, 0);
    builder.supportive(FlowChild::Node("B"), styles);
    test(builder, &[FlowChild::Node("A"), abs(20.0), FlowChild::Node("B")]);
}

#[test]
fn equal_strength_smaller_item_is_dropped() {
    let mut builder = CollapsingBuilder::new();
    let styles = StyleChain::default();
    builder.supportive(FlowChild::Node("A"), styles);
    builder.weak(abs(20.0), styles, 0);
    builder.weak(abs(10.0), styles, 0);
    builder.supportive(FlowChild::Node("B"), styles);
    test(builder, &[FlowChild::Node("A"), abs(20.0), FlowChild::Node("B")]);
}

#[test]
fn equal_strength_equal_item_keeps_the_first() {
    let mut builder = CollapsingBuilder::new();
    let first = [1u64];
    let second = [2u64];
    builder.supportive(0u32, StyleChain::default());
    builder.weak(5, StyleChain::new(&first), 2);
    builder.weak(5, StyleChain::new(&second), 2);
    builder.supportive(9, StyleChain::default());
    let (finished, _) = builder.finish();
    assert_eq!(finished.items(), vec![&0, &5, &9]);
    assert_eq!(
        finished.styles(),
        vec![StyleChain::default(), StyleChain::new(&first), StyleChain::default()]
    );
}

#[test]
fn equal_strength_incomparable_item_is_dropped() {
    let mut builder = CollapsingBuilder::new();
    let styles = StyleChain::default();
    builder.supportive(node(), styles);
    builder.weak(abs(10.0), styles, 0);
    builder.weak(FlowChild::Colbreak, styles, 0);
    builder.weak(abs(f64::NAN), styles, 0);
    builder.supportive(node(), styles);
    test(builder, &[node(), abs(10.0), node()]);
}

#[test]
fn losing_challenger_is_gone_for_good() {
    let mut builder = CollapsingBuilder::new();
    let styles = StyleChain::default();
    builder.supportive(0u32, styles);
    builder.weak(10, styles, 1);
    // Loses against 10 and is dropped, though it would beat 30.
    builder.weak(5, styles, 1);
    // Displaces 10 by strength.
    builder.weak(1, styles, 0);
    // Loses by strength.
    builder.weak(30, styles, 1);
    assert_eq!(builder.items(), vec![&0, &1]);
    builder.supportive(99, styles);
    test(builder, &[0, 1, 99]);
}

#[test]
fn ignorant_items_never_block_adjacency() {
    let mut builder = CollapsingBuilder::new();
    let styles = StyleChain::default();
    builder.supportive(FlowChild::Node("A"), styles);
    builder.weak(abs(10.0), styles, 0);
    builder.ignorant(FlowChild::Node("I"), styles);
    builder.weak(abs(20.0), styles, 0);
    builder.supportive(FlowChild::Node("B"), styles);
    test(builder, &[FlowChild::Node("A"), FlowChild::Node("I"), abs(20.0), FlowChild::Node("B")]);
}

#[test]
fn ignorant_item_stays_behind_the_weak_item_that_holds_its_place() {
    let mut builder = CollapsingBuilder::new();
    let styles = StyleChain::default();
    builder.supportive(FlowChild::Node("A"), styles);
    builder.weak(abs(20.0), styles, 0);
    builder.ignorant(FlowChild::Node("I"), styles);
    builder.weak(abs(10.0), styles, 0);
    builder.supportive(FlowChild::Node("B"), styles);
    test(builder, &[FlowChild::Node("A"), abs(20.0), FlowChild::Node("I"), FlowChild::Node("B")]);
}

#[test]
fn contest_is_the_same_without_the_ignorant_item() {
    let styles = StyleChain::default();
    let mut with = CollapsingBuilder::new();
    with.supportive(1u32, styles);
    with.weak(10, styles, 0);
    with.ignorant(77, styles);
    with.weak(20, styles, 0);
    with.supportive(2, styles);
    let mut without = CollapsingBuilder::new();
    without.supportive(1u32, styles);
    without.weak(10, styles, 0);
    without.weak(20, styles, 0);
    without.supportive(2, styles);
    let kept: Vec<u32> =
        with.finish().0.items().into_iter().copied().filter(|item| *item != 77).collect();
    let bare: Vec<u32> = without.finish().0.items().into_iter().copied().collect();
    assert_eq!(kept, vec![1, 20, 2]);
    assert_eq!(kept, bare);
}

#[test]
fn ignorant_items_survive_a_destructive_item() {
    let mut builder = CollapsingBuilder::new();
    let styles = StyleChain::default();
    builder.supportive(1u32, styles);
    builder.ignorant(2, styles);
    builder.weak(3, styles, 0);
    builder.ignorant(4, styles);
    builder.destructive(5, styles);
    test(builder, &[1, 2, 4, 5]);
}

#[test]
fn ignorant_item_does_not_make_room_for_weak_items() {
    let mut builder = CollapsingBuilder::new();
    let styles = StyleChain::default();
    builder.destructive(1u32, styles);
    builder.ignorant(2, styles);
    builder.weak(3, styles, 0);
    builder.supportive(4, styles);
    test(builder, &[1, 2, 4]);
}

#[test]
fn items_shows_committed_then_staged() {
    let mut builder = CollapsingBuilder::new();
    let styles = StyleChain::default();
    builder.supportive(1u32, styles);
    builder.weak(2, styles, 0);
    builder.ignorant(3, styles);
    assert_eq!(builder.items(), vec![&1, &2, &3]);
    assert!(!builder.is_empty());
}

#[test]
fn items_can_be_asked_again_and_again() {
    let mut builder = CollapsingBuilder::new();
    let styles = StyleChain::default();
    builder.supportive(node(), styles);
    builder.weak(abs(10.0), styles, 0);
    builder.ignorant(FlowChild::Colbreak, styles);
    let first: Vec<FlowChild> = builder.items().into_iter().cloned().collect();
    let second: Vec<FlowChild> = builder.items().into_iter().cloned().collect();
    assert_eq!(first, vec![node(), abs(10.0), FlowChild::Colbreak]);
    assert_eq!(first, second);
    builder.supportive(node(), styles);
    test(builder, &[node(), abs(10.0), FlowChild::Colbreak, node()]);
}

#[test]
fn staged_items_alone_make_the_builder_non_empty() {
    let mut builder = CollapsingBuilder::new();
    builder.ignorant(1u32, StyleChain::default());
    assert!(!builder.is_empty());
}

#[test]
fn retained_items_keep_their_call_order() {
    let mut builder = CollapsingBuilder::new();
    let styles = StyleChain::default();
    let mut submitted = Vec::new();
    for round in 0..6u32 {
        let base = round * 10;
        builder.ignorant(base, styles);
        builder.weak(base + 1, styles, 1);
        builder.weak(base + 2, styles, 0);
        builder.ignorant(base + 3, styles);
        if round % 3 == 2 {
            builder.destructive(base + 4, styles);
        } else {
            builder.supportive(base + 4, styles);
        }
        submitted.extend([base, base + 1, base + 2, base + 3, base + 4]);
    }
    let (finished, _) = builder.finish();
    let kept: Vec<u32> = finished.items().into_iter().copied().collect();
    assert_eq!(
        kept,
        vec![0, 3, 4, 10, 12, 13, 14, 20, 23, 24, 30, 33, 34, 40, 42, 43, 44, 50, 53, 54]
    );
    let mut place = 0;
    for item in &kept {
        while submitted[place] != *item {
            place += 1;
        }
        place += 1;
    }
}

#[test]
fn each_item_keeps_its_style_chain() {
    let outer = [1u64];
    let inner = [1u64, 2];
    let other = [1u64, 3];
    let mut builder = CollapsingBuilder::new();
    builder.supportive("a", StyleChain::new(&inner));
    builder.weak("gap", StyleChain::new(&outer), 0);
    builder.ignorant("mark", StyleChain::new(&other));
    builder.weak("wide gap", StyleChain::new(&inner), 0);
    builder.supportive("b", StyleChain::new(&other));
    let (finished, trunk) = builder.finish();
    assert_eq!(finished.items(), vec![&"a", &"mark", &"wide gap", &"b"]);
    assert_eq!(
        finished.styles(),
        vec![
            StyleChain::new(&inner),
            StyleChain::new(&other),
            StyleChain::new(&inner),
            StyleChain::new(&other),
        ]
    );
    assert_eq!(trunk, StyleChain::new(&outer));
    assert_eq!(trunk.links(), &[1]);
}

#[test]
fn common_prefix_counts_retained_items_only() {
    let deep = [4u64, 5, 6];
    let alien = [9u64];
    let mut builder = CollapsingBuilder::new();
    builder.supportive(1u32, StyleChain::new(&deep));
    // Dropped at the end, so its chain does not count.
    builder.weak(2, StyleChain::new(&alien), 0);
    let (finished, trunk) = builder.finish();
    assert_eq!(finished.len(), 1);
    assert_eq!(trunk.links(), &[4, 5, 6]);
}

#[test]
fn whole_flow_collapses_as_expected() {
    let mut builder = CollapsingBuilder::new();
    let styles = StyleChain::default();
    builder.weak("break", styles, 0);
    builder.supportive("node 1", styles);
    builder.weak("space 10", styles, 0);
    builder.ignorant("break 2", styles);
    builder.weak("space 20", styles, 0);
    builder.supportive("node 2", styles);
    builder.weak("space 10 b", styles, 0);
    builder.weak("space 20 b", styles, 1);
    builder.supportive("node 3", styles);
    test(builder, &["node 1", "break 2", "space 20", "node 2", "space 10 b", "node 3"]);
}
