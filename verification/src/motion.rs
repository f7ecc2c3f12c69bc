//! The five candidate effects, and which of them are armed.
//!
//! Altitude is a different philosophy from the distortion fields: it removes the
//! condition that requires distortion rather than distorting, so arming it
//! disarms every other effect, and arming any other effect disarms it.

use vstd::prelude::*;

verus! {

/// One of the five candidate approaches the demo lets you compare.
#[derive(Debug, Clone, Copy, PartialEq, Eq, Structural)]
pub enum Effect {
    /// Linear tilt that flips with your direction of travel.
    Parallax,
    /// A symmetrical cylinder: the centre bulges, the edges curve away.
    Barrel,
    /// A kinetic gravity well: the centre stays calm while the edges run away.
    Gravity,
    /// Fading motion blur, applied to whatever is currently large and fast.
    Comfort,
    /// Climbing: shrink the document instead of distorting it.
    Altitude,
}

/// How many effects there are.
pub const EFFECT_COUNT: usize = 5;

/// The position of an effect in the panel.
pub open spec fn effect_index(effect: Effect) -> nat {
    match effect {
        Effect::Parallax => 0,
        Effect::Barrel => 1,
        Effect::Gravity => 2,
        Effect::Comfort => 3,
        Effect::Altitude => 4,
    }
}

/// The effect at a position of the panel.
pub open spec fn effect_at(index: int) -> Effect {
    if index == 0 {
        Effect::Parallax
    } else if index == 1 {
        Effect::Barrel
    } else if index == 2 {
        Effect::Gravity
    } else if index == 3 {
        Effect::Comfort
    } else {
        Effect::Altitude
    }
}

/// Every effect, in the order the panel shows them.
pub open spec fn all_effects() -> Seq<Effect> {
    seq![Effect::Parallax, Effect::Barrel, Effect::Gravity, Effect::Comfort, Effect::Altitude]
}

/// An effect's short stable name.
pub open spec fn effect_key(effect: Effect) -> Seq<char> {
    match effect {
        Effect::Parallax => "parallax"@,
        Effect::Barrel => "barrel"@,
        Effect::Gravity => "gravity"@,
        Effect::Comfort => "comfort"@,
        Effect::Altitude => "altitude"@,
    }
}

/// An effect's title in the panel.
pub open spec fn effect_title(effect: Effect) -> Seq<char> {
    match effect {
        Effect::Parallax => "1. Parallax Horizon"@,
        Effect::Barrel => "2. Rotating Barrel"@,
        Effect::Gravity => "3. Black Hole"@,
        Effect::Comfort => "4. Kinetic Fading (Comfort)"@,
        Effect::Altitude => "5. Altitude"@,
    }
}

/// What an effect is going for, and where it fights itself.
pub open spec fn effect_description(effect: Effect) -> Seq<char> {
    match effect {
        Effect::Parallax => "Linear tilt. Direction dynamically flips based on your scroll travel. \
     Stable IF you're looking at the reference band — not otherwise."@,
        Effect::Barrel => "Symmetrical cylinder. Center bulges into a lens, edges curve away. \
     Washes out the front-and-center content itself, rather than relying on \
     gaze position."@,
        Effect::Gravity => "Kinetic response. Center stays small and calm, edges go large/fast/blurred. \
     Tends to jitter at low scroll speed — the center is asked to be both large \
     and slow, which fights itself."@,
        Effect::Comfort => "Washes out large, fast-moving foreground text — the side-window blur, applied \
     to whatever's currently large and fast rather than only the screen edges."@,
        Effect::Altitude => "No speed cap, no distortion field. Faster scrolling climbs higher — text shrinks \
     the way the ground does from a plane — so a fast flick covers more distance \
     without fighting your hand, and landing is legible because you've zoomed back \
     in by the time you arrive."@,
    }
}

impl Effect {
    /// Every effect, in the order the panel shows them.
    pub const ALL: [Effect; 5] = [
        Effect::Parallax,
        Effect::Barrel,
        Effect::Gravity,
        Effect::Comfort,
        Effect::Altitude,
    ];

    /// The effect's position in the panel, and in [`Effect::ALL`].
    pub fn index(self) -> (i: usize)
        ensures
            i == effect_index(self),
            i < EFFECT_COUNT,
    {
        match self {
            Effect::Parallax => 0,
            Effect::Barrel => 1,
            Effect::Gravity => 2,
            Effect::Comfort => 3,
            Effect::Altitude => 4,
        }
    }

    /// A short stable name, for element ids and test selectors.
    pub fn key(self) -> (k: &'static str)
        ensures
            k@ == effect_key(self),
    {
        match self {
            Effect::Parallax => "parallax",
            Effect::Barrel => "barrel",
            Effect::Gravity => "gravity",
            Effect::Comfort => "comfort",
            Effect::Altitude => "altitude",
        }
    }

    /// The effect's title, numbered as the panel shows it.
    pub fn title(self) -> (t: &'static str)
        ensures
            t@ == effect_title(self),
    {
        match self {
            Effect::Parallax => "1. Parallax Horizon",
            Effect::Barrel => "2. Rotating Barrel",
            Effect::Gravity => "3. Black Hole",
            Effect::Comfort => "4. Kinetic Fading (Comfort)",
            Effect::Altitude => "5. Altitude",
        }
    }

    /// What this effect is going for, and where it fights itself.
    pub fn description(self) -> (d: &'static str)
        ensures
            d@ == effect_description(self),
    {
        match self {
            Effect::Parallax => "Linear tilt. Direction dynamically flips based on your scroll travel. \
     Stable IF you're looking at the reference band — not otherwise.",
            Effect::Barrel => "Symmetrical cylinder. Center bulges into a lens, edges curve away. \
     Washes out the front-and-center content itself, rather than relying on \
     gaze position.",
            Effect::Gravity => "Kinetic response. Center stays small and calm, edges go large/fast/blurred. \
     Tends to jitter at low scroll speed — the center is asked to be both large \
     and slow, which fights itself.",
            Effect::Comfort => "Washes out large, fast-moving foreground text — the side-window blur, applied \
     to whatever's currently large and fast rather than only the screen edges.",
            Effect::Altitude => "No speed cap, no distortion field. Faster scrolling climbs higher — text shrinks \
     the way the ground does from a plane — so a fast flick covers more distance \
     without fighting your hand, and landing is legible because you've zoomed back \
     in by the time you arrive.",
        }
    }
}

/// Whether a set of armed effects keeps Altitude apart from the distortion
/// fields: when Altitude is armed, nothing else is.
pub open spec fn altitude_exclusive(armed: Set<Effect>) -> bool {
    armed.contains(Effect::Altitude) ==> armed == set![Effect::Altitude]
}

/// The effects armed after arming (`on`) or disarming `effect`.
pub open spec fn armed_after_set(armed: Set<Effect>, effect: Effect, on: bool) -> Set<Effect> {
    if !on {
        armed.remove(effect)
    } else if effect == Effect::Altitude {
        set![Effect::Altitude]
    } else {
        armed.remove(Effect::Altitude).insert(effect)
    }
}

/// Every effect has its own place in the panel, and [`all_effects`] lists each
/// one at that place: indexing is a bijection between the five effects and the
/// positions `0..5`.
pub proof fn lemma_index_is_a_bijection(effect: Effect, index: int)
    ensures
        effect_index(effect) < EFFECT_COUNT,
        all_effects().len() == EFFECT_COUNT,
        all_effects()[effect_index(effect) as int] == effect,
        effect_at(effect_index(effect) as int) == effect,
        0 <= index < EFFECT_COUNT ==> effect_index(effect_at(index)) == index,
        0 <= index < EFFECT_COUNT ==> all_effects()[index] == effect_at(index),
{
}

/// The armed effects never run Altitude together with anything else: the
/// opening set keeps them apart, and arming or disarming any effect keeps them
/// apart.
pub proof fn lemma_altitude_stays_exclusive(armed: Set<Effect>, effect: Effect, on: bool)
    requires
        altitude_exclusive(armed),
    ensures
        altitude_exclusive(set![Effect::Parallax, Effect::Comfort]),
        altitude_exclusive(armed_after_set(armed, effect, on)),
{
    let after = armed_after_set(armed, effect, on);
    if after.contains(Effect::Altitude) {
        if !on {
            assert(armed.contains(Effect::Altitude));
            assert(after =~= set![Effect::Altitude]);
        } else if effect == Effect::Altitude {
        } else {
            assert(!after.contains(Effect::Altitude));
        }
    }
    assert(!set![Effect::Parallax, Effect::Comfort].contains(Effect::Altitude));
}

/// Arming an effect leaves it armed, disarming it leaves it disarmed, and
/// disarming touches nothing else. Arming Altitude disarms every other effect;
/// arming any other effect disarms Altitude and touches nothing else.
pub proof fn lemma_set_arms_what_it_names(armed: Set<Effect>, effect: Effect, other: Effect)
    ensures
        armed_after_set(armed, effect, true).contains(effect),
        !armed_after_set(armed, effect, false).contains(effect),
        other != effect ==> (armed_after_set(armed, effect, false).contains(other)
            == armed.contains(other)),
        effect == Effect::Altitude && other != Effect::Altitude ==> !armed_after_set(
            armed,
            effect,
            true,
        ).contains(other),
        effect != Effect::Altitude ==> !armed_after_set(armed, effect, true).contains(
            Effect::Altitude,
        ),
        effect != Effect::Altitude && other != effect && other != Effect::Altitude ==> (
        armed_after_set(armed, effect, true).contains(other) == armed.contains(other)),
{
}

/// The effects among the first `n` of the panel whose armed state differs
/// between `before` and `after`, in panel order.
pub open spec fn changed_among(before: Set<Effect>, after: Set<Effect>, n: nat) -> Seq<Effect>
    decreases n,
{
    if n == 0 {
        seq![]
    } else {
        let earlier = changed_among(before, after, (n - 1) as nat);
        let effect = effect_at(n - 1);
        if before.contains(effect) != after.contains(effect) {
            earlier.push(effect)
        } else {
            earlier
        }
    }
}

/// The switches of the panel that move when the armed set goes from `before`
/// to `after`, in panel order.
pub open spec fn changed_effects(before: Set<Effect>, after: Set<Effect>) -> Seq<Effect> {
    changed_among(before, after, EFFECT_COUNT as nat)
}

/// An effect is listed among the first `n` changes exactly when it sits in
/// one of the first `n` places and its armed state differs.
pub proof fn lemma_changed_among_lists_the_changes(
    before: Set<Effect>,
    after: Set<Effect>,
    n: nat,
    effect: Effect,
)
    requires
        n <= EFFECT_COUNT,
    ensures
        changed_among(before, after, n).contains(effect) <==> (effect_index(effect) < n
            && before.contains(effect) != after.contains(effect)),
    decreases n,
{
    if n > 0 {
        lemma_changed_among_lists_the_changes(before, after, (n - 1) as nat, effect);
        let earlier = changed_among(before, after, (n - 1) as nat);
        let last = effect_at(n - 1);
        assert(effect_index(last) == n - 1);
        if before.contains(last) != after.contains(last) {
            assert(earlier.push(last)[earlier.len() as int] == last);
            assert forall|e: Effect| earlier.push(last).contains(e) <==> (earlier.contains(e)
                || e == last) by {
                if earlier.push(last).contains(e) {
                    let i = choose|i: int| 0 <= i < earlier.push(last).len()
                        && earlier.push(last)[i] == e;
                    if i < earlier.len() {
                        assert(earlier[i] == e);
                    }
                }
                if earlier.contains(e) {
                    let i = choose|i: int| 0 <= i < earlier.len() && earlier[i] == e;
                    assert(earlier.push(last)[i] == e);
                }
            }
        }
    }
}

/// Flipping a switch always moves the switch that was flipped, and moves any
/// other switch only where its effect changed: the list of moving switches is
/// exactly the effects whose armed state differs.
pub proof fn lemma_toggle_moves_its_own_switch(armed: Set<Effect>, effect: Effect, other: Effect)
    ensures
        changed_effects(armed, armed_after_set(armed, effect, !armed.contains(effect))).contains(
            effect,
        ),
        changed_effects(armed, armed_after_set(armed, effect, !armed.contains(effect))).contains(
            other,
        ) <==> armed.contains(other) != armed_after_set(
            armed,
            effect,
            !armed.contains(effect),
        ).contains(other),
{
    let after = armed_after_set(armed, effect, !armed.contains(effect));
    lemma_changed_among_lists_the_changes(armed, after, EFFECT_COUNT as nat, effect);
    lemma_changed_among_lists_the_changes(armed, after, EFFECT_COUNT as nat, other);
    lemma_index_is_a_bijection(effect, 0);
    lemma_index_is_a_bijection(other, 0);
}

/// Which effects are armed.
#[derive(Debug, Clone, Copy)]
pub struct Settings {
    enabled: [bool; 5],
}

impl View for Settings {
    type V = Set<Effect>;

    /// The armed effects.
    closed spec fn view(&self) -> Set<Effect> {
        Set::new(|effect: Effect| self.enabled@[effect_index(effect) as int])
    }
}

impl Default for Settings {
    /// Parallax and Kinetic Fading, the pair the panel opens with.
    fn default() -> (settings: Self)
        ensures
            settings@ == set![Effect::Parallax, Effect::Comfort],
    {
        let mut settings = Settings { enabled: [false, false, false, false, false] };
        settings.set(Effect::Parallax, true);
        settings.set(Effect::Comfort, true);
        settings
    }
}

impl Settings {
    /// Whether `effect` is armed.
    pub fn is_on(&self, effect: Effect) -> (on: bool)
        ensures
            on == self@.contains(effect),
    {
        self.enabled[effect.index()]
    }

    /// Arm or disarm an effect.
    ///
    /// Running Altitude together with a distortion field muddies what you are
    /// feeling, so switching one on switches the other off.
    pub fn set(&mut self, effect: Effect, on: bool)
        ensures
            final(self)@ == armed_after_set(old(self)@, effect, on),
    {
        self.enabled[effect.index()] = on;
        if on {
            if effect == Effect::Altitude {
                self.enabled[0] = false;
                self.enabled[1] = false;
                self.enabled[2] = false;
                self.enabled[3] = false;
            } else {
                self.enabled[4] = false;
            }
        }
        proof {
            let expected = armed_after_set(old(self)@, effect, on);
            assert forall|e: Effect| self@.contains(e) == expected.contains(e) by {
                assert(effect_index(e) == effect_index(effect) <==> e == effect);
            }
            assert(self@ =~= expected);
        }
    }

    /// Flip the switch of `effect`, and list the switches that move, in panel
    /// order: the flipped one, and any that the flip disarmed along with it.
    pub fn toggle(&mut self, effect: Effect) -> (moved: Vec<Effect>)
        ensures
            final(self)@ == armed_after_set(old(self)@, effect, !old(self)@.contains(effect)),
            moved@ == changed_effects(old(self)@, final(self)@),
    {
        let before = *self;
        let on = !self.is_on(effect);
        self.set(effect, on);
        let mut moved: Vec<Effect> = Vec::new();
        if before.is_on(Effect::Parallax) != self.is_on(Effect::Parallax) {
            moved.push(Effect::Parallax);
        }
        if before.is_on(Effect::Barrel) != self.is_on(Effect::Barrel) {
            moved.push(Effect::Barrel);
        }
        if before.is_on(Effect::Gravity) != self.is_on(Effect::Gravity) {
            moved.push(Effect::Gravity);
        }
        if before.is_on(Effect::Comfort) != self.is_on(Effect::Comfort) {
            moved.push(Effect::Comfort);
        }
        if before.is_on(Effect::Altitude) != self.is_on(Effect::Altitude) {
            moved.push(Effect::Altitude);
        }
        proof {
            reveal_with_fuel(changed_among, 6);
        }
        moved
    }
}

} // verus!
