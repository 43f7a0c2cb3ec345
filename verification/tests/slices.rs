use randomize::slices::{pick, pick_mut, pick_ref, saturating_usize_as_u32, shuffle};
use randomize::{Gen32, PCG32};

/// Replays a fixed list of words, over and over.
#[derive(Clone)]
struct Replay {
    words: Vec<u32>,
    at: usize,
}

impl Gen32 for Replay {
    fn output(&self) -> u32 {
        self.words[self.at % self.words.len()]
    }

    fn successor(&self) -> Self {
        Replay { words: self.words.clone(), at: self.at + 1 }
    }

    fn next_u32(&mut self) -> u32 {
        let w = self.output();
        self.at += 1;
        w
    }
}

/// A word that the sampler for `count` places at `place`.
fn word_at(count: u32, place: u32) -> u32 {
    (((place as u64) << 32) / count as u64) as u32 + 2
}

fn placing(places: &[(u32, u32)]) -> Replay {
    Replay { words: places.iter().map(|&(count, place)| word_at(count, place)).collect(), at: 0 }
}

#[test]
fn lengths_saturate() {
    assert_eq!(saturating_usize_as_u32(0), 0);
    assert_eq!(saturating_usize_as_u32(77), 77);
    assert_eq!(saturating_usize_as_u32(u32::MAX as usize), u32::MAX);
    assert_eq!(saturating_usize_as_u32(usize::MAX), u32::MAX);
}

#[test]
fn pick_takes_the_element_at_the_sampled_place() {
    let items = ['a', 'b', 'c', 'd', 'e'];
    let mut g = placing(&[(5, 3), (5, 0), (5, 4)]);
    assert_eq!(pick(&mut g, &items), 'd');
    assert_eq!(*pick_ref(&mut g, &items), 'a');
    let mut items = items;
    *pick_mut(&mut g, &mut items) = 'z';
    assert_eq!(items, ['a', 'b', 'c', 'd', 'z']);
    assert_eq!(g.at, 3);
}

#[test]
fn shuffle_swaps_each_index_with_a_sampled_later_one() {
    let mut items = ['a', 'b', 'c', 'd'];
    let mut g = placing(&[(4, 2), (3, 0), (2, 1)]);
    shuffle(&mut g, &mut items);
    assert_eq!(items, ['c', 'b', 'd', 'a']);
    assert_eq!(g.at, 3);
    let mut one = [9];
    shuffle(&mut g, &mut one);
    assert_eq!(one, [9]);
    assert_eq!(g.at, 3);
}

#[test]
fn shuffle_keeps_what_the_slice_holds() {
    let mut g = PCG32::seed(3, 1);
    let mut items: Vec<u32> = (0..500).collect();
    shuffle(&mut g, &mut items);
    assert!(items.iter().enumerate().any(|(i, &x)| i as u32 != x));
    items.sort();
    assert_eq!(items, (0..500).collect::<Vec<u32>>());
}
