use collapsing::style::StyleChain;
use collapsing::style_vec::StyleVecBuilder;

#[test]
fn default_chain_is_empty() {
    let chain = StyleChain::default();
    assert!(chain.links().is_empty());
    assert_eq!(chain, StyleChain::new(&[]));
}

#[test]
fn chain_keeps_its_layers() {
    let layers = [3u64, 1, 2];
    let chain = StyleChain::new(&layers);
    assert_eq!(chain.links(), &[3, 1, 2]);
}

#[test]
fn chains_are_compared_by_their_layers() {
    let a = [1u64, 2];
    let b = [1u64, 2];
    let c = [1u64, 3];
    assert_eq!(StyleChain::new(&a), StyleChain::new(&b));
    assert_ne!(StyleChain::new(&a), StyleChain::new(&c));
}

#[test]
fn common_prefix_stops_at_the_first_difference() {
    let a = [1u64, 2, 3, 4];
    let b = [1u64, 2, 7, 4];
    let trunk = StyleChain::new(&a).common_prefix(StyleChain::new(&b));
    assert_eq!(trunk.links(), &[1, 2]);
}

#[test]
fn common_prefix_of_nested_chains_is_the_shorter() {
    let a = [1u64, 2];
    let b = [1u64, 2, 3];
    assert_eq!(StyleChain::new(&a).common_prefix(StyleChain::new(&b)).links(), &[1, 2]);
    assert_eq!(StyleChain::new(&b).common_prefix(StyleChain::new(&a)).links(), &[1, 2]);
}

#[test]
fn common_prefix_of_a_chain_with_itself_is_the_chain() {
    let a = [5u64, 6, 7];
    let chain = StyleChain::new(&a);
    assert_eq!(chain.common_prefix(chain), chain);
}

#[test]
fn common_prefix_of_unrelated_chains_is_empty() {
    let a = [1u64, 2];
    let b = [2u64, 1];
    let trunk = StyleChain::new(&a).common_prefix(StyleChain::new(&b));
    assert_eq!(trunk, StyleChain::default());
}

#[test]
fn common_prefix_with_the_empty_chain_is_empty() {
    let a = [1u64];
    let chain = StyleChain::new(&a);
    assert_eq!(chain.common_prefix(StyleChain::default()), StyleChain::default());
    assert_eq!(StyleChain::default().common_prefix(chain), StyleChain::default());
}

#[test]
fn sequence_builder_keeps_pairs_in_order() {
    let a = [1u64, 2];
    let b = [1u64];
    let mut builder = StyleVecBuilder::new();
    assert!(builder.is_empty());
    builder.push('x', StyleChain::new(&a));
    builder.push('y', StyleChain::new(&b));
    assert!(!builder.is_empty());
    assert_eq!(builder.items(), vec![&'x', &'y']);
    let (finished, trunk) = builder.finish();
    assert_eq!(finished.len(), 2);
    assert!(!finished.is_empty());
    assert_eq!(finished.items(), vec![&'x', &'y']);
    assert_eq!(finished.styles(), vec![StyleChain::new(&a), StyleChain::new(&b)]);
    assert_eq!(trunk.links(), &[1]);
}

#[test]
fn sequence_builder_with_one_item_shares_its_whole_chain() {
    let a = [8u64, 9];
    let mut builder = StyleVecBuilder::new();
    builder.push(1u8, StyleChain::new(&a));
    let (_, trunk) = builder.finish();
    assert_eq!(trunk.links(), &[8, 9]);
}

#[test]
fn sequence_builder_with_no_item_shares_the_empty_chain() {
    let builder: StyleVecBuilder<u8> = StyleVecBuilder::new();
    let (finished, trunk) = builder.finish();
    assert!(finished.is_empty());
    assert!(finished.items().is_empty());
    assert!(finished.styles().is_empty());
    assert_eq!(trunk, StyleChain::default());
}

#[test]
fn sequence_builder_shrinks_the_shared_chain_step_by_step() {
    let a = [1u64, 2, 3];
    let b = [1u64, 2, 4];
    let c = [1u64, 5];
    let mut builder = StyleVecBuilder::new();
    builder.push(0u8, StyleChain::new(&a));
    builder.push(1, StyleChain::new(&b));
    builder.push(2, StyleChain::new(&c));
    builder.push(3, StyleChain::new(&a));
    let (_, trunk) = builder.finish();
    assert_eq!(trunk.links(), &[1]);
}
