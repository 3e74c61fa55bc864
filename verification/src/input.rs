use vstd::prelude::*;

use crate::bits::{
    fits, has_bit, lemma_and, lemma_and_not, lemma_fits, lemma_fits_ops, lemma_nonzero_below, lemma_or, lemma_single, lemma_xor, lemma_zero,
    low_mask,
};

verus! {

/// A keyboard key that the application responds to.
#[derive(Clone, Copy, PartialEq, Eq, Structural, Debug)]
pub enum Key {
    K0,
    K1,
    K2,
    K3,
    K4,
    K5,
    K6,
    K7,
    K8,
    K9,
    A,
    B,
    C,
    D,
    E,
    F,
    G,
    H,
    I,
    J,
    K,
    L,
    M,
    N,
    O,
    P,
    Q,
    R,
    S,
    T,
    U,
    V,
    W,
    X,
    Y,
    Z,
    Escape,
    Backspace,
    Space,
    Tab,
    Control,
    Shift,
    LeftArrow,
    RightArrow,
}

/// The position of each key among all keys.
pub open spec fn key_index(k: Key) -> u64 {
    match k {
        Key::K0 => 0u64,
        Key::K1 => 1u64,
        Key::K2 => 2u64,
        Key::K3 => 3u64,
        Key::K4 => 4u64,
        Key::K5 => 5u64,
        Key::K6 => 6u64,
        Key::K7 => 7u64,
        Key::K8 => 8u64,
        Key::K9 => 9u64,
        Key::A => 10u64,
        Key::B => 11u64,
        Key::C => 12u64,
        Key::D => 13u64,
        Key::E => 14u64,
        Key::F => 15u64,
        Key::G => 16u64,
        Key::H => 17u64,
        Key::I => 18u64,
        Key::J => 19u64,
        Key::K => 20u64,
        Key::L => 21u64,
        Key::M => 22u64,
        Key::N => 23u64,
        Key::O => 24u64,
        Key::P => 25u64,
        Key::Q => 26u64,
        Key::R => 27u64,
        Key::S => 28u64,
        Key::T => 29u64,
        Key::U => 30u64,
        Key::V => 31u64,
        Key::W => 32u64,
        Key::X => 33u64,
        Key::Y => 34u64,
        Key::Z => 35u64,
        Key::Escape => 36u64,
        Key::Backspace => 37u64,
        Key::Space => 38u64,
        Key::Tab => 39u64,
        Key::Control => 40u64,
        Key::Shift => 41u64,
        Key::LeftArrow => 42u64,
        Key::RightArrow => 43u64,
    }
}

/// The key at each position.
pub open spec fn key_at(i: u64) -> Key {
    match i {
        0 => Key::K0,
        1 => Key::K1,
        2 => Key::K2,
        3 => Key::K3,
        4 => Key::K4,
        5 => Key::K5,
        6 => Key::K6,
        7 => Key::K7,
        8 => Key::K8,
        9 => Key::K9,
        10 => Key::A,
        11 => Key::B,
        12 => Key::C,
        13 => Key::D,
        14 => Key::E,
        15 => Key::F,
        16 => Key::G,
        17 => Key::H,
        18 => Key::I,
        19 => Key::J,
        20 => Key::K,
        21 => Key::L,
        22 => Key::M,
        23 => Key::N,
        24 => Key::O,
        25 => Key::P,
        26 => Key::Q,
        27 => Key::R,
        28 => Key::S,
        29 => Key::T,
        30 => Key::U,
        31 => Key::V,
        32 => Key::W,
        33 => Key::X,
        34 => Key::Y,
        35 => Key::Z,
        36 => Key::Escape,
        37 => Key::Backspace,
        38 => Key::Space,
        39 => Key::Tab,
        40 => Key::Control,
        41 => Key::Shift,
        42 => Key::LeftArrow,
        _ => Key::RightArrow,
    }
}

/// The number of keys.
pub const KEY_COUNT: u64 = 44;

pub proof fn lemma_key_index(k: Key)
    ensures
        key_index(k) < KEY_COUNT,
        key_at(key_index(k)) == k,
{
}

pub proof fn lemma_key_at(i: u64)
    requires
        i < KEY_COUNT,
    ensures
        key_index(key_at(i)) == i,
{
}

impl Key {
    pub fn index(self) -> (r: u64)
        ensures
            r == key_index(self),
    {
        match self {
            Key::K0 => 0,
            Key::K1 => 1,
            Key::K2 => 2,
            Key::K3 => 3,
            Key::K4 => 4,
            Key::K5 => 5,
            Key::K6 => 6,
            Key::K7 => 7,
            Key::K8 => 8,
            Key::K9 => 9,
            Key::A => 10,
            Key::B => 11,
            Key::C => 12,
            Key::D => 13,
            Key::E => 14,
            Key::F => 15,
            Key::G => 16,
            Key::H => 17,
            Key::I => 18,
            Key::J => 19,
            Key::K => 20,
            Key::L => 21,
            Key::M => 22,
            Key::N => 23,
            Key::O => 24,
            Key::P => 25,
            Key::Q => 26,
            Key::R => 27,
            Key::S => 28,
            Key::T => 29,
            Key::U => 30,
            Key::V => 31,
            Key::W => 32,
            Key::X => 33,
            Key::Y => 34,
            Key::Z => 35,
            Key::Escape => 36,
            Key::Backspace => 37,
            Key::Space => 38,
            Key::Tab => 39,
            Key::Control => 40,
            Key::Shift => 41,
            Key::LeftArrow => 42,
            Key::RightArrow => 43,
        }
    }
}

/// The bit of a key in the number of a key set.
pub open spec fn key_bit(k: Key) -> u64 {
    1u64 << key_index(k)
}

/// A set of keys.
#[derive(Clone, Copy)]
pub struct KeySet {
    bits: u64,
}

impl View for KeySet {
    type V = Set<Key>;

    closed spec fn view(&self) -> Set<Key> {
        Set::new(|k: Key| has_bit(self.bits, key_index(k)))
    }
}

impl KeySet {
    /// Only the bits of existing keys are ever set.
    #[verifier::type_invariant]
    closed spec fn inv(self) -> bool {
        fits(self.bits, KEY_COUNT)
    }

    /// The set as a number: bit `key_index(k)` is set exactly for the keys `k` in it.
    pub closed spec fn spec_bits(self) -> u64 {
        self.bits
    }

    proof fn lemma_view(self)
        requires
            fits(self.bits, KEY_COUNT),
        ensures
            forall|k: Key| #[trigger] self@.contains(k) == has_bit(self.bits, key_index(k)),
            self.bits == 0 <==> self@ == Set::<Key>::empty(),
    {
        lemma_zero();
        if self.bits != 0 {
            assert(self.bits & low_mask(KEY_COUNT) != 0);
            lemma_nonzero_below(self.bits, KEY_COUNT);
            let i = choose|i: u64| i < KEY_COUNT && #[trigger] has_bit(self.bits, i);
            lemma_key_at(i);
            assert(self@.contains(key_at(i)));
        } else {
            assert(self@ =~= Set::<Key>::empty());
        }
    }

    /// The number has no bits beyond those of the keys.
    pub closed spec fn valid(self) -> bool {
        fits(self.bits, KEY_COUNT)
    }

    /// Two sets hold the same keys exactly when their numbers are equal.
    pub proof fn lemma_bits_identify(a: KeySet, b: KeySet)
        requires
            a.valid(),
            b.valid(),
        ensures
            (a.spec_bits() == b.spec_bits()) == (a@ == b@),
    {
        if a.bits != b.bits {
            lemma_fits_ops(a.bits, b.bits, KEY_COUNT);
            lemma_xor(a.bits, b.bits);
            let (x, y) = (a.bits, b.bits);
            assert(x ^ y != 0) by (bit_vector)
                requires
                    x != y,
            ;
            lemma_nonzero_below(a.bits ^ b.bits, KEY_COUNT);
            let i = choose|i: u64| i < KEY_COUNT && #[trigger] has_bit(a.bits ^ b.bits, i);
            lemma_key_at(i);
            a.lemma_view();
            b.lemma_view();
            assert(a@.contains(key_at(i)) != b@.contains(key_at(i)));
        }
    }

    /// The number of the union of two sets of keys is the bitwise or of their
    /// numbers.
    pub proof fn lemma_union_bits(a: KeySet, b: KeySet, c: KeySet)
        requires
            a.valid(),
            b.valid(),
            c.valid(),
            c@ == a@.union(b@),
        ensures
            c.spec_bits() == a.spec_bits() | b.spec_bits(),
    {
        a.lemma_view();
        b.lemma_view();
        lemma_fits_ops(a.bits, b.bits, KEY_COUNT);
        lemma_or(a.bits, b.bits);
        let r = KeySet { bits: a.bits | b.bits };
        r.lemma_view();
        assert forall|j: Key| #[trigger] r@.contains(j) == a@.union(b@).contains(j) by {
            lemma_key_index(j);
        }
        assert(r@ =~= a@.union(b@));
        KeySet::lemma_bits_identify(r, c);
    }

    pub fn bits(&self) -> (r: u64)
        ensures
            r == self.spec_bits(),
            self.valid(),
    {
        proof {
            use_type_invariant(self);
        }
        self.bits
    }

    /// The empty set.
    pub fn empty() -> (r: Self)
        ensures
            r@ == Set::<Key>::empty(),
            r.spec_bits() == 0,
            r.valid(),
    {
        assert(fits(0u64, 44u64)) by (bit_vector);
        let r = KeySet { bits: 0 };
        proof {
            r.lemma_view();
        }
        r
    }

    /// The set holding only `k`.
    pub fn single(k: Key) -> (r: Self)
        ensures
            r@ == Set::<Key>::empty().insert(k),
            r.spec_bits() == key_bit(k),
            r.valid(),
    {
        let index = k.index();
        proof {
            lemma_key_index(k);
            crate::bits::lemma_fits_single(index, KEY_COUNT);
            lemma_single(index);
        }
        let r = KeySet { bits: 1u64 << index };
        proof {
            r.lemma_view();
            assert forall|j: Key| #[trigger] r@.contains(j) == (j == k) by {
                lemma_key_index(j);
            }
            assert(r@ =~= Set::<Key>::empty().insert(k));
        }
        r
    }

    pub fn contains(&self, k: Key) -> (r: bool)
        ensures
            r == self@.contains(k),
    {
        proof {
            use_type_invariant(self);
            self.lemma_view();
            lemma_key_index(k);
        }
        (self.bits >> k.index()) & 1 == 1
    }

    pub fn insert(&mut self, k: Key)
        ensures
            final(self)@ == old(self)@.insert(k),
    {
        proof {
            use_type_invariant(&*self);
            self.lemma_view();
        }
        let single = KeySet::single(k);
        proof {
            use_type_invariant(single);
            single.lemma_view();
            lemma_fits_ops(self.bits, single.bits, KEY_COUNT);
            lemma_or(self.bits, single.bits);
        }
        let ghost before = self.bits;
        self.bits = self.bits | single.bits;
        proof {
            self.lemma_view();
            assert forall|j: Key| #[trigger] self@.contains(j) == old(self)@.insert(k).contains(j) by {
                lemma_key_index(j);
                assert(has_bit(before | single.bits, key_index(j)) == (has_bit(before, key_index(j)) || has_bit(single.bits, key_index(j))));
                assert(single@.contains(j) == (j == k));
            }
            assert(self@ =~= old(self)@.insert(k));
        }
    }

    pub fn remove(&mut self, k: Key)
        ensures
            final(self)@ == old(self)@.remove(k),
    {
        proof {
            use_type_invariant(&*self);
            self.lemma_view();
        }
        let single = KeySet::single(k);
        proof {
            use_type_invariant(single);
            single.lemma_view();
            lemma_fits_ops(self.bits, single.bits, KEY_COUNT);
            lemma_and_not(self.bits, single.bits);
        }
        let ghost before = self.bits;
        self.bits = self.bits & !single.bits;
        proof {
            self.lemma_view();
            assert forall|j: Key| #[trigger] self@.contains(j) == old(self)@.remove(k).contains(j) by {
                lemma_key_index(j);
                assert(has_bit(before & !single.bits, key_index(j)) == (has_bit(before, key_index(j)) && !has_bit(single.bits, key_index(j))));
                assert(single@.contains(j) == (j == k));
            }
            assert(self@ =~= old(self)@.remove(k));
        }
    }

    pub fn union(self, other: Self) -> (r: Self)
        ensures
            r@ == self@.union(other@),
            r.spec_bits() == self.spec_bits() | other.spec_bits(),
            r.valid(),
    {
        proof {
            use_type_invariant(self);
            use_type_invariant(other);
            self.lemma_view();
            other.lemma_view();
            lemma_fits_ops(self.bits, other.bits, KEY_COUNT);
            lemma_or(self.bits, other.bits);
        }
        let r = KeySet { bits: self.bits | other.bits };
        proof {
            r.lemma_view();
            assert forall|j: Key| #[trigger] r@.contains(j) == self@.union(other@).contains(j) by {
                lemma_key_index(j);
            }
            assert(r@ =~= self@.union(other@));
        }
        r
    }

    pub fn intersection(self, other: Self) -> (r: Self)
        ensures
            r@ == self@.intersect(other@),
    {
        proof {
            use_type_invariant(self);
            use_type_invariant(other);
            self.lemma_view();
            other.lemma_view();
            lemma_fits_ops(self.bits, other.bits, KEY_COUNT);
            lemma_and(self.bits, other.bits);
        }
        let r = KeySet { bits: self.bits & other.bits };
        proof {
            r.lemma_view();
            assert forall|j: Key| #[trigger] r@.contains(j) == self@.intersect(other@).contains(j) by {
                lemma_key_index(j);
            }
            assert(r@ =~= self@.intersect(other@));
        }
        r
    }

    /// The keys in exactly one of the two sets.
    pub fn symmetrical_difference(self, other: Self) -> (r: Self)
        ensures
            r@ == self@.difference(other@).union(other@.difference(self@)),
    {
        proof {
            use_type_invariant(self);
            use_type_invariant(other);
            self.lemma_view();
            other.lemma_view();
            lemma_fits_ops(self.bits, other.bits, KEY_COUNT);
            lemma_xor(self.bits, other.bits);
        }
        let r = KeySet { bits: self.bits ^ other.bits };
        proof {
            r.lemma_view();
            assert forall|j: Key| #[trigger] r@.contains(j) == self@.difference(other@).union(other@.difference(self@)).contains(j) by {
                lemma_key_index(j);
            }
            assert(r@ =~= self@.difference(other@).union(other@.difference(self@)));
        }
        r
    }

    /// The keys not in the set.
    pub fn complement(self) -> (r: Self)
        ensures
            r@ == Set::<Key>::full().difference(self@),
    {
        proof {
            use_type_invariant(self);
            self.lemma_view();
            lemma_fits_ops(self.bits, self.bits, KEY_COUNT);
            lemma_and_not(low_mask(KEY_COUNT), self.bits);
            crate::bits::lemma_low_mask_bits(KEY_COUNT);
        }
        let mask: u64 = 0xfff_ffff_ffff;
        assert(0xfff_ffff_ffffu64 == low_mask(44u64)) by (bit_vector);
        let r = KeySet { bits: mask & !self.bits };
        proof {
            r.lemma_view();
            assert forall|j: Key| #[trigger] r@.contains(j) == Set::<Key>::full().difference(self@).contains(j) by {
                lemma_key_index(j);
            }
            assert(r@ =~= Set::<Key>::full().difference(self@));
        }
        r
    }

    pub fn is_subset(self, other: Self) -> (r: bool)
        ensures
            r == self@.subset_of(other@),
    {
        proof {
            use_type_invariant(self);
            use_type_invariant(other);
            self.lemma_view();
            other.lemma_view();
            lemma_fits_ops(self.bits, other.bits, KEY_COUNT);
            lemma_and_not(self.bits, other.bits);
            let d = KeySet { bits: self.bits & !other.bits };
            d.lemma_view();
            assert forall|j: Key| #[trigger] d@.contains(j) == (self@.contains(j) && !other@.contains(j)) by {
                lemma_key_index(j);
            }
            if d@ == Set::<Key>::empty() {
                assert forall|j: Key| self@.contains(j) implies other@.contains(j) by {
                    assert(!d@.contains(j));
                }
            } else {
                let j = d@.choose();
                assert(d@.contains(j)) by {
                    assert(!(d@ =~= Set::<Key>::empty()));
                }
            }
        }
        self.bits & !other.bits == 0
    }

    pub fn is_empty(self) -> (r: bool)
        ensures
            r == (self@ == Set::<Key>::empty()),
    {
        proof {
            use_type_invariant(self);
            self.lemma_view();
        }
        self.bits == 0
    }
}


/// A mouse button.
#[derive(Clone, Copy, PartialEq, Eq, Structural, Debug)]
pub enum Button {
    Left,
    Right,
}

/// A set of mouse buttons.
#[derive(Clone, Copy)]
pub struct ButtonSet {
    left: bool,
    right: bool,
}

impl View for ButtonSet {
    type V = Set<Button>;

    closed spec fn view(&self) -> Set<Button> {
        Set::new(|b: Button| match b {
            Button::Left => self.left,
            Button::Right => self.right,
        })
    }
}

impl ButtonSet {
    pub fn empty() -> (r: Self)
        ensures
            r@ == Set::<Button>::empty(),
    {
        let r = ButtonSet { left: false, right: false };
        assert(r@ =~= Set::<Button>::empty());
        r
    }

    pub fn contains(&self, b: Button) -> (r: bool)
        ensures
            r == self@.contains(b),
    {
        match b {
            Button::Left => self.left,
            Button::Right => self.right,
        }
    }

    pub fn insert(&mut self, b: Button)
        ensures
            final(self)@ == old(self)@.insert(b),
    {
        match b {
            Button::Left => self.left = true,
            Button::Right => self.right = true,
        }
        assert(self@ =~= old(self)@.insert(b));
    }

    pub fn remove(&mut self, b: Button)
        ensures
            final(self)@ == old(self)@.remove(b),
    {
        match b {
            Button::Left => self.left = false,
            Button::Right => self.right = false,
        }
        assert(self@ =~= old(self)@.remove(b));
    }
}

/// Which keys and buttons are held, and which changed or repeated since the
/// monitor was last refreshed.
pub struct InputMonitor {
    pub active_keys: KeySet,
    pub fresh_keys: KeySet,
    pub different_keys: KeySet,
    pub active_buttons: ButtonSet,
    pub different_buttons: ButtonSet,
    pub is_fresh: bool,
}

impl InputMonitor {
    pub fn new() -> (r: Self)
        ensures
            r.active_keys@ == Set::<Key>::empty(),
            r.fresh_keys@ == Set::<Key>::empty(),
            r.different_keys@ == Set::<Key>::empty(),
            r.active_buttons@ == Set::<Button>::empty(),
            r.different_buttons@ == Set::<Button>::empty(),
            !r.is_fresh,
    {
        InputMonitor {
            active_keys: KeySet::empty(),
            fresh_keys: KeySet::empty(),
            different_keys: KeySet::empty(),
            active_buttons: ButtonSet::empty(),
            different_buttons: ButtonSet::empty(),
            is_fresh: false,
        }
    }

    /// Records a key press (`is_pressed`) or release; `key` is `None` for a key
    /// the application ignores, which still marks the input as fresh.
    pub fn process_key_event(&mut self, key: Option<Key>, is_pressed: bool)
        ensures
            final(self).is_fresh,
            final(self).active_buttons@ == old(self).active_buttons@,
            final(self).different_buttons@ == old(self).different_buttons@,
            match key {
                None => {
                    &&& final(self).active_keys@ == old(self).active_keys@
                    &&& final(self).fresh_keys@ == old(self).fresh_keys@
                    &&& final(self).different_keys@ == old(self).different_keys@
                },
                Some(k) => {
                    &&& final(self).fresh_keys@ == old(self).fresh_keys@.insert(k)
                    &&& final(self).different_keys@ == if old(self).active_keys@.contains(k) != is_pressed {
                        old(self).different_keys@.insert(k)
                    } else {
                        old(self).different_keys@
                    }
                    &&& final(self).active_keys@ == if is_pressed {
                        old(self).active_keys@.insert(k)
                    } else {
                        old(self).active_keys@.remove(k)
                    }
                },
            },
    {
        self.is_fresh = true;
        let key = match key {
            Some(key) => key,
            None => {
                return;
            },
        };
        self.fresh_keys.insert(key);
        if self.active_keys.contains(key) != is_pressed {
            self.different_keys.insert(key);
        }
        if is_pressed {
            self.active_keys.insert(key);
        } else {
            self.active_keys.remove(key);
        }
    }

    /// Records a press (`is_pressed`) or release of the left mouse button.
    pub fn process_mouse_input(&mut self, is_pressed: bool)
        ensures
            final(self).is_fresh,
            final(self).active_keys@ == old(self).active_keys@,
            final(self).fresh_keys@ == old(self).fresh_keys@,
            final(self).different_keys@ == old(self).different_keys@,
            final(self).different_buttons@ == if old(self).active_buttons@.contains(Button::Left) != is_pressed {
                old(self).different_buttons@.insert(Button::Left)
            } else {
                old(self).different_buttons@
            },
            final(self).active_buttons@ == if is_pressed {
                old(self).active_buttons@.insert(Button::Left)
            } else {
                old(self).active_buttons@.remove(Button::Left)
            },
    {
        if self.active_buttons.contains(Button::Left) != is_pressed {
            self.different_buttons.insert(Button::Left);
        }
        if is_pressed {
            self.active_buttons.insert(Button::Left);
        } else {
            self.active_buttons.remove(Button::Left);
        }
        self.is_fresh = true;
    }

    /// Forgets which keys repeated or changed; held keys and buttons stay held.
    pub fn defresh(&mut self)
        ensures
            !final(self).is_fresh,
            final(self).active_keys@ == old(self).active_keys@,
            final(self).active_buttons@ == old(self).active_buttons@,
            final(self).fresh_keys@ == Set::<Key>::empty(),
            final(self).different_keys@ == Set::<Key>::empty(),
            final(self).different_buttons@ == Set::<Button>::empty(),
    {
        self.fresh_keys = KeySet::empty();
        self.different_keys = KeySet::empty();
        self.different_buttons = ButtonSet::empty();
        self.is_fresh = false;
    }
}


/// An input whose state can be kept on its own: a key or the left mouse button.
#[derive(Clone, Copy, PartialEq, Eq, Structural, Debug)]
pub enum Input {
    K0,
    K1,
    K2,
    K3,
    K4,
    K5,
    K6,
    K7,
    K8,
    K9,
    A,
    B,
    C,
    D,
    E,
    F,
    G,
    H,
    I,
    J,
    K,
    L,
    M,
    N,
    O,
    P,
    Q,
    R,
    S,
    T,
    U,
    V,
    W,
    X,
    Y,
    Z,
    Escape,
    Space,
    Tab,
    LMouse,
    LShift,
}

/// The state of one input: whether it is held, whether it was reported since
/// the last refresh, and whether it changed since then.
#[derive(Clone, Copy)]
pub struct InputState {
    pub is_active: bool,
    pub is_fresh: bool,
    pub is_different: bool,
}

impl InputState {
    pub fn new() -> (r: Self)
        ensures
            !r.is_active,
            !r.is_fresh,
            !r.is_different,
    {
        InputState { is_active: false, is_fresh: false, is_different: false }
    }

    /// Held, and reported since the last refresh (a press or a repeat).
    pub fn was_emitted(&self) -> (r: bool)
        ensures
            r == (self.is_active && self.is_fresh),
    {
        self.is_active && self.is_fresh
    }

    /// Held, and newly so since the last refresh.
    pub fn was_pressed(&self) -> (r: bool)
        ensures
            r == (self.is_active && self.is_different),
    {
        self.is_active && self.is_different
    }
}

} // verus!
