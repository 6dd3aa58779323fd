//! The planner's seat-general view of the table.
//!
//! Every planner reads a [`Board`]: plain values describing the permanents,
//! hand and life totals as seen from one seat. Opponents stay identified by
//! seat, so nothing here assumes a two-player game.

use vstd::prelude::*;
use crate::text::{
    chars_of, contains, digits_value, find_chars, first_occurrence, is_digit, lemma_digits_value_grows,
    lemma_first_occurrence, occurs, push_text,
};

verus! {

/// A mana colour. `Colorless` is the sixth pool slot.
#[derive(Clone, Copy, Debug, PartialEq, Eq, Structural)]
pub enum Color {
    White,
    Blue,
    Black,
    Red,
    Green,
    Colorless,
}

impl Color {
    /// The pool slot of this colour, in `[W, U, B, R, G, C]` order.
    pub open spec fn slot(self) -> int {
        match self {
            Color::White => 0,
            Color::Blue => 1,
            Color::Black => 2,
            Color::Red => 3,
            Color::Green => 4,
            Color::Colorless => 5,
        }
    }

    /// The pool slot of this colour.
    pub fn index(self) -> (slot: usize)
        ensures
            slot == self.slot(),
            slot < 6,
    {
        match self {
            Color::White => 0,
            Color::Blue => 1,
            Color::Black => 2,
            Color::Red => 3,
            Color::Green => 4,
            Color::Colorless => 5,
        }
    }
}

/// The colour that occupies pool slot `slot`.
pub open spec fn color_at(slot: int) -> Color {
    if slot == 0 {
        Color::White
    } else if slot == 1 {
        Color::Blue
    } else if slot == 2 {
        Color::Black
    } else if slot == 3 {
        Color::Red
    } else if slot == 4 {
        Color::Green
    } else {
        Color::Colorless
    }
}

/// Every colour, in pool-slot order.
pub fn mana_colors() -> (colors: Vec<Color>)
    ensures
        colors@.len() == 6,
        forall|slot: int| 0 <= slot < 6 ==> #[trigger] colors@[slot] == color_at(slot),
{
    vec![Color::White, Color::Blue, Color::Black, Color::Red, Color::Green, Color::Colorless]
}

/// A basic land type, as named by a landwalk ability.
#[derive(Clone, Copy, Debug, PartialEq, Eq, Structural)]
pub enum LandType {
    Plains,
    Island,
    Swamp,
    Mountain,
    Forest,
}

/// The keywords and restrictions the planners read.
#[derive(Clone, Copy, Debug, PartialEq, Eq, Structural)]
pub enum Keyword {
    Flying,
    Reach,
    FirstStrike,
    DoubleStrike,
    Deathtouch,
    Trample,
    Vigilance,
    Haste,
    Lifelink,
    Defender,
    Flash,
    Shroud,
    Fear,
    BlackEvasion,
    Unblockable,
    Mountainwalk,
    Landwalk(LandType),
    CannotBlock,
    CannotAttackOrBlock,
    CannotBlockUnlessControlsMountain,
}

/// What a spell or ability may legally target.
#[derive(Clone, Copy, Debug, PartialEq, Eq, Structural)]
pub enum TargetRequirement {
    Any,
    Player,
    Opponent,
    PlayerOrCreature,
    Permanent,
    Creature,
    NonblackCreature,
    FlyingCreature,
    DistinctCreature,
    ArtifactOrCreature,
    AttackingOrBlockingCreature,
    Land,
    ControlledLand,
    ControlledCreature,
    OpponentCreature,
}

/// A card type, as printed.
#[derive(Clone, Copy, Debug, PartialEq, Eq, Structural)]
pub enum CardType {
    Artifact,
    Creature,
    Enchantment,
    Instant,
    Land,
    Planeswalker,
    Sorcery,
}

/// An object on the battlefield, in hand or on the stack.
#[derive(Clone, Copy, Debug, PartialEq, Eq, Structural)]
pub struct ObjectId(pub u64);

/// A seat at the table.
#[derive(Clone, Copy, Debug, PartialEq, Eq, Structural)]
pub struct PlayerId(pub usize);

/// What a spell or ability is aimed at.
#[derive(Clone, Copy, Debug, PartialEq, Eq, Structural)]
pub enum Target {
    Player(PlayerId),
    Permanent(ObjectId),
}

/// The step of the turn.
#[derive(Clone, Copy, Debug, PartialEq, Eq, Structural)]
pub enum Step {
    Untap,
    Upkeep,
    Draw,
    PrecombatMain,
    BeginningOfCombat,
    DeclareAttackers,
    DeclareBlockers,
    CombatDamage,
    EndOfCombat,
    PostcombatMain,
    End,
    Cleanup,
}

/// One hybrid mana symbol, payable with either colour.
#[derive(Clone, Copy, Debug, PartialEq, Eq, Structural)]
pub struct HybridManaSymbol {
    pub first: Color,
    pub second: Color,
}

/// A printed mana cost.
#[derive(Clone, Debug)]
pub struct ManaCost {
    pub generic: u8,
    pub colored: Vec<Color>,
    pub hybrid: Vec<HybridManaSymbol>,
}

impl ManaCost {
    /// A cost of `generic` plus one symbol per listed colour.
    pub fn with_colors(generic: u8, colored: Vec<Color>) -> (cost: ManaCost)
        ensures
            cost.generic == generic,
            cost.colored@ == colored@,
            cost.hybrid@.len() == 0,
    {
        ManaCost { generic, colored, hybrid: Vec::new() }
    }

    /// A cost with hybrid symbols as well.
    pub fn with_hybrid(generic: u8, colored: Vec<Color>, hybrid: Vec<HybridManaSymbol>) -> (cost:
        ManaCost)
        ensures
            cost.generic == generic,
            cost.colored@ == colored@,
            cost.hybrid@ == hybrid@,
    {
        ManaCost { generic, colored, hybrid }
    }
}

/// What a card is for, as far as a planner needs to care.
#[derive(Clone, Copy, Debug, PartialEq, Eq, Structural)]
pub enum Role {
    Land,
    ManaCreature,
    Creature,
    Removal,
    Burn,
    TokenMaker,
    Pump,
    Attachment,
    Other,
}

/// One mana source's capability.
#[derive(Clone, Debug)]
pub enum SourceKind {
    /// A land with intrinsic basic-land mana, activated by colour choice.
    BasicTyped(Vec<Color>),
    /// A bound ability producing exactly one fixed colour.
    BoundFixed { ability: &'static str, color: Color },
    /// A bound ability producing one colour chosen from a set.
    BoundChoice { ability: &'static str, colors: Vec<Color> },
    /// A bound ability producing a fixed multi-mana bundle in one activation.
    BoundBundle { ability: &'static str, bundle: Vec<(Color, u8)> },
}

/// The colours named by a bundle, in order.
pub open spec fn bundle_colors(bundle: Seq<(Color, u8)>) -> Seq<Color> {
    bundle.map_values(|entry: (Color, u8)| entry.0)
}

/// The total mana a bundle yields.
pub open spec fn bundle_quantity(bundle: Seq<(Color, u8)>) -> int
    decreases bundle.len(),
{
    if bundle.len() == 0 {
        0
    } else {
        bundle_quantity(bundle.drop_last()) + bundle.last().1
    }
}

impl SourceKind {
    /// Every colour this source can contribute, ignoring quantity.
    pub open spec fn colors_view(&self) -> Seq<Color> {
        match self {
            SourceKind::BasicTyped(colors) => colors@,
            SourceKind::BoundChoice { colors, .. } => colors@,
            SourceKind::BoundFixed { color, .. } => seq![*color],
            SourceKind::BoundBundle { bundle, .. } => bundle_colors(bundle@),
        }
    }

    /// How much mana one activation yields, saturated at `u8::MAX`.
    pub open spec fn quantity_view(&self) -> int {
        match self {
            SourceKind::BoundBundle { bundle, .. } => {
                let q = bundle_quantity(bundle@);
                if q > 255 {
                    255
                } else {
                    q
                }
            },
            _ => 1,
        }
    }

    /// Every colour this source can contribute, ignoring quantity.
    pub fn colors(&self) -> (colors: Vec<Color>)
        ensures
            colors@ == self.colors_view(),
    {
        match self {
            SourceKind::BasicTyped(colors) => copy_colors(colors),
            SourceKind::BoundChoice { colors, .. } => copy_colors(colors),
            SourceKind::BoundFixed { color, .. } => vec![*color],
            SourceKind::BoundBundle { bundle, .. } => {
                let mut out: Vec<Color> = Vec::new();
                let mut i: usize = 0;
                while i < bundle.len()
                    invariant
                        i <= bundle@.len(),
                        out@ == bundle_colors(bundle@).take(i as int),
                    decreases bundle@.len() - i,
                {
                    out.push(bundle[i].0);
                    i = i + 1;
                    assert(out@ =~= bundle_colors(bundle@).take(i as int));
                }
                assert(out@ =~= bundle_colors(bundle@));
                out
            },
        }
    }

    /// How much mana one activation yields.
    pub fn quantity(&self) -> (amount: u8)
        ensures
            amount == self.quantity_view(),
    {
        match self {
            SourceKind::BoundBundle { bundle, .. } => {
                let mut sum: u8 = 0;
                let mut saturated = false;
                let mut i: usize = 0;
                while i < bundle.len()
                    invariant
                        i <= bundle@.len(),
                        saturated ==> bundle_quantity(bundle@.take(i as int)) > 255,
                        !saturated ==> sum == bundle_quantity(bundle@.take(i as int)),
                        bundle_quantity(bundle@.take(i as int)) >= 0,
                    decreases bundle@.len() - i,
                {
                    assert(bundle@.take(i + 1).drop_last() =~= bundle@.take(i as int));
                    if !saturated {
                        if bundle[i].1 as u16 + sum as u16 > 255 {
                            saturated = true;
                        } else {
                            sum = sum + bundle[i].1;
                        }
                    }
                    i = i + 1;
                }
                assert(bundle@.take(bundle@.len() as int) =~= bundle@);
                if saturated {
                    255
                } else {
                    sum
                }
            },
            _ => 1,
        }
    }
}

/// Copies a colour list element by element.
pub fn copy_colors(colors: &Vec<Color>) -> (out: Vec<Color>)
    ensures
        out@ == colors@,
{
    let mut out: Vec<Color> = Vec::new();
    let mut i: usize = 0;
    while i < colors.len()
        invariant
            i <= colors@.len(),
            out@ == colors@.take(i as int),
        decreases colors@.len() - i,
    {
        out.push(colors[i]);
        i = i + 1;
        assert(out@ =~= colors@.take(i as int));
    }
    assert(out@ =~= colors@);
    out
}

/// Whether `keyword` occurs in `keywords`.
pub fn has_keyword(keywords: &Vec<Keyword>, keyword: Keyword) -> (found: bool)
    ensures
        found == keywords@.contains(keyword),
{
    let mut i: usize = 0;
    while i < keywords.len()
        invariant
            i <= keywords@.len(),
            forall|j: int| 0 <= j < i ==> keywords@[j] != keyword,
        decreases keywords@.len() - i,
    {
        if keywords[i] == keyword {
            assert(keywords@[i as int] == keyword);
            return true;
        }
        i = i + 1;
    }
    false
}

/// Whether a target requirement admits a player.
pub open spec fn hits_player(requirement: TargetRequirement) -> bool {
    match requirement {
        TargetRequirement::Any
        | TargetRequirement::Player
        | TargetRequirement::Opponent
        | TargetRequirement::PlayerOrCreature => true,
        _ => false,
    }
}

/// Whether a target requirement admits a battlefield creature.
pub open spec fn hits_creature(requirement: TargetRequirement) -> bool {
    match requirement {
        TargetRequirement::Any
        | TargetRequirement::Permanent
        | TargetRequirement::Creature
        | TargetRequirement::NonblackCreature
        | TargetRequirement::FlyingCreature
        | TargetRequirement::DistinctCreature
        | TargetRequirement::ArtifactOrCreature
        | TargetRequirement::PlayerOrCreature => true,
        _ => false,
    }
}

/// Whether a target requirement admits a player.
pub fn requirement_hits_player(requirement: TargetRequirement) -> (hits: bool)
    ensures
        hits == hits_player(requirement),
{
    match requirement {
        TargetRequirement::Any
        | TargetRequirement::Player
        | TargetRequirement::Opponent
        | TargetRequirement::PlayerOrCreature => true,
        _ => false,
    }
}

/// Whether a target requirement admits a battlefield creature.
pub fn requirement_hits_creature(requirement: TargetRequirement) -> (hits: bool)
    ensures
        hits == hits_creature(requirement),
{
    match requirement {
        TargetRequirement::Any
        | TargetRequirement::Permanent
        | TargetRequirement::Creature
        | TargetRequirement::NonblackCreature
        | TargetRequirement::FlyingCreature
        | TargetRequirement::DistinctCreature
        | TargetRequirement::ArtifactOrCreature
        | TargetRequirement::PlayerOrCreature => true,
        _ => false,
    }
}

/// Everything the planners need to know about one card definition.
#[derive(Clone, Debug)]
pub struct CardFacts {
    pub id: &'static str,
    pub cost: ManaCost,
    pub mana_value: u8,
    pub is_land: bool,
    pub is_creature: bool,
    pub is_instant_speed: bool,
    pub power: i16,
    pub toughness: i16,
    pub keywords: Vec<Keyword>,
    pub role: Role,
    /// Target requirements in spell order.
    pub targets: Vec<TargetRequirement>,
    /// Total damage this card deals to a single chosen target.
    pub damage_to_target: u8,
    /// Damage this card deals to its own controller.
    pub self_damage: u8,
    /// Life this card gains its controller.
    pub life_gain: u8,
    /// Mana production, when this card is a mana source.
    pub source: Option<SourceKind>,
    /// Life this land offers to pay on entry to come in untapped.
    pub entry_life_payment: Option<u8>,
    /// True when the card cannot be cast by this planner.
    pub unsupported: bool,
}

impl CardFacts {
    /// Whether this card needs the planner to choose targets.
    pub fn needs_targets(&self) -> (needs: bool)
        ensures
            needs == (self.targets@.len() > 0),
    {
        self.targets.len() > 0
    }
}

/// One permanent on the battlefield, with the facts a planner needs inline.
#[derive(Clone, Debug)]
pub struct Permanent {
    pub object: ObjectId,
    pub controller: PlayerId,
    pub definition: Option<&'static str>,
    pub tapped: bool,
    pub can_attack: bool,
    /// Live blocking eligibility, ignoring any individual attacker's evasion.
    pub can_block: bool,
    /// Whether this creature arrived too recently to attack or pay a tap cost.
    pub summoning_sick: bool,
    pub is_creature: bool,
    pub is_land: bool,
    pub power: i16,
    pub toughness: i16,
    pub keywords: Vec<Keyword>,
    pub source: Option<SourceKind>,
    pub role: Role,
    /// Whether this permanent belongs to someone other than the viewer.
    pub controller_is_opponent: bool,
}

impl Permanent {
    /// Whether this permanent carries `keyword`.
    pub open spec fn holds(&self, keyword: Keyword) -> bool {
        self.keywords@.contains(keyword)
    }

    /// Whether this permanent carries `keyword`.
    pub fn has(&self, keyword: Keyword) -> (found: bool)
        ensures
            found == self.holds(keyword),
    {
        has_keyword(&self.keywords, keyword)
    }

    /// A creature that can profitably be left back to block.
    pub fn is_body(&self) -> (body: bool)
        ensures
            body == (self.is_creature && self.power + self.toughness > 1),
    {
        self.is_creature && (self.power as i32 + self.toughness as i32 > 1)
    }
}

/// One card in hand, with its facts resolved.
#[derive(Clone, Debug)]
pub struct HandCard {
    pub object: ObjectId,
    pub definition: &'static str,
    pub facts: CardFacts,
}

/// One opponent, kept identified rather than flattened.
#[derive(Clone, Copy, Debug, PartialEq, Eq, Structural)]
pub struct Opponent {
    pub seat: PlayerId,
    pub life: i64,
}

/// The planner's view of the table.
#[derive(Clone, Debug)]
pub struct Board {
    pub me: PlayerId,
    pub my_life: i64,
    pub opponents: Vec<Opponent>,
    pub turn: u32,
    pub step: Step,
    pub is_my_turn: bool,
    pub lands_played: u8,
    pub stack_depth: usize,
    pub attackers_declared: bool,
    pub blockers_declared: bool,
    pub hand: Vec<HandCard>,
    /// Every permanent I control.
    pub mine: Vec<Permanent>,
    /// Every permanent an opponent controls.
    pub theirs: Vec<Permanent>,
    /// Creatures currently attacking.
    pub attackers: Vec<Permanent>,
    /// Mana already floating, by colour slot.
    pub floating: [u8; 6],
}

/// The opponent with the lowest life, the earliest one on a tie.
pub open spec fn primary_of(opponents: Seq<Opponent>) -> Option<Opponent>
    decreases opponents.len(),
{
    if opponents.len() == 0 {
        None
    } else {
        match primary_of(opponents.drop_last()) {
            None => Some(opponents.last()),
            Some(best) => if opponents.last().life < best.life {
                Some(opponents.last())
            } else {
                Some(best)
            },
        }
    }
}

/// The sum of power over the permanents selected by `keep`, counting negative
/// power as it stands.
pub open spec fn power_sum(permanents: Seq<Permanent>, keep: spec_fn(Permanent) -> bool) -> int
    decreases permanents.len(),
{
    if permanents.len() == 0 {
        0
    } else {
        power_sum(permanents.drop_last(), keep) + if keep(permanents.last()) {
            permanents.last().power as int
        } else {
            0
        }
    }
}

/// Whether a permanent can attack.
pub open spec fn attack_ready(p: Permanent) -> bool {
    p.can_attack
}

impl Board {
    /// The opponent with the lowest life, which is the default aggression
    /// target in any seat count. `None` when there is no opponent: a planner
    /// that cannot name an opponent must decline to act, not guess.
    pub fn primary_opponent(&self) -> (primary: Option<Opponent>)
        ensures
            primary == primary_of(self.opponents@),
    {
        let mut best: Option<Opponent> = None;
        let mut i: usize = 0;
        while i < self.opponents.len()
            invariant
                i <= self.opponents@.len(),
                best == primary_of(self.opponents@.take(i as int)),
            decreases self.opponents@.len() - i,
        {
            assert(self.opponents@.take(i + 1).drop_last() =~= self.opponents@.take(i as int));
            let candidate = self.opponents[i];
            best = match best {
                None => Some(candidate),
                Some(current) => if candidate.life < current.life {
                    Some(candidate)
                } else {
                    Some(current)
                },
            };
            i = i + 1;
        }
        assert(self.opponents@.take(self.opponents@.len() as int) =~= self.opponents@);
        best
    }

    /// My creatures, excluding lands and noncreature permanents, in order.
    pub fn my_creatures(&self) -> (creatures: Vec<&Permanent>)
        ensures
            creatures@.map_values(|p: &Permanent| *p) == creatures_among(self.mine@, self.mine@.len() as int),
    {
        creatures_of(&self.mine)
    }

    /// Every opponent creature, in order, still attributable to its controller.
    pub fn their_creatures(&self) -> (creatures: Vec<&Permanent>)
        ensures
            creatures@.map_values(|p: &Permanent| *p) == creatures_among(self.theirs@, self.theirs@.len() as int),
    {
        creatures_of(&self.theirs)
    }

    /// Total power I could attack with if everything attacked.
    pub fn my_attacking_power(&self) -> (power: i32)
        requires
            self.mine@.len() <= 65535,
        ensures
            power == power_sum(self.mine@, |p: Permanent| attack_ready(p)),
    {
        let mut total: i32 = 0;
        let mut i: usize = 0;
        while i < self.mine.len()
            invariant
                i <= self.mine@.len() <= 65535,
                total == power_sum(self.mine@.take(i as int), |p: Permanent| attack_ready(p)),
                -32768 * i <= total <= 32767 * i,
            decreases self.mine@.len() - i,
        {
            assert(self.mine@.take(i + 1).drop_last() =~= self.mine@.take(i as int));
            if self.mine[i].can_attack {
                total = total + self.mine[i].power as i32;
            }
            i = i + 1;
        }
        assert(self.mine@.take(self.mine@.len() as int) =~= self.mine@);
        total
    }
}


// ---------------------------------------------------------------------------
// Reading rendered continuous effects
// ---------------------------------------------------------------------------

/// Whether an attachment's rendered continuous changes hurt the permanent it
/// lands on: a negative power or toughness modifier, or a keyword that
/// restricts the creature.
pub open spec fn is_hostile_attachment_view(rendered: Seq<char>) -> bool {
    occurs(rendered, "power: -"@) || occurs(rendered, "toughness: -"@) || occurs(rendered, "CannotAttackOrBlock"@)
        || occurs(rendered, "CannotBlock"@) || occurs(rendered, "Defender"@)
}

/// Whether an attachment effect hurts the permanent it lands on.
pub fn is_hostile_attachment(rendered: &str) -> (hostile: bool)
    ensures
        hostile == is_hostile_attachment_view(rendered@),
{
    contains(rendered, "power: -") || contains(rendered, "toughness: -") || contains(rendered, "CannotAttackOrBlock")
        || contains(rendered, "CannotBlock") || contains(rendered, "Defender")
}

/// How many ASCII digits run from position `from` of `text`.
pub open spec fn digit_run(text: Seq<char>, from: int) -> int
    decreases text.len() - from,
{
    if from < 0 || from >= text.len() || !is_digit(text[from]) {
        0
    } else {
        1 + digit_run(text, from + 1)
    }
}

/// The small number rendered right after the first `field: ` in `rendered`:
/// the run of digits there, if it is not empty and fits in a byte.
pub open spec fn scalar_field_view(rendered: Seq<char>, field: Seq<char>) -> Option<u8> {
    let needle = field + ": "@;
    match first_occurrence(rendered, needle) {
        None => None,
        Some(at) => {
            let start = at + needle.len();
            let digits = rendered.subrange(start, start + digit_run(rendered, start));
            if digits.len() == 0 || digits_value(digits) > 255 {
                None
            } else {
                Some(digits_value(digits) as u8)
            }
        },
    }
}

proof fn lemma_digit_run_bounds(text: Seq<char>, from: int)
    requires
        0 <= from <= text.len(),
    ensures
        0 <= digit_run(text, from) <= text.len() - from,
        forall|k: int| from <= k < from + digit_run(text, from) ==> #[trigger] is_digit(text[k]),
        from + digit_run(text, from) < text.len() ==> !is_digit(text[from + digit_run(text, from)]),
    decreases text.len() - from,
{
    if from < text.len() && is_digit(text[from]) {
        lemma_digit_run_bounds(text, from + 1);
    }
}

/// Reads the number after `field: ` in a rendered effect.
pub fn scalar_field(rendered: &str, field: &str) -> (value: Option<u8>)
    ensures
        value == scalar_field_view(rendered@, field@),
{
    let mut needle_text = String::new();
    push_text(&mut needle_text, field);
    push_text(&mut needle_text, ": ");
    let text = chars_of(rendered);
    let needle = chars_of(needle_text.as_str());
    let at = match find_chars(&text, &needle) {
        Some(at) => at,
        None => {
            return None;
        },
    };
    proof {
        lemma_first_occurrence(text@, needle@, 0);
        let k = first_occurrence(text@, needle@)->Some_0;
        assert(0 <= k && k + needle@.len() <= text@.len());
        assert(text@.len() == text.len());
        assert(at == k);
    }
    let start = at + needle.len();
    proof {
        lemma_digit_run_bounds(text@, start as int);
    }
    let ghost run = digit_run(text@, start as int);
    let mut i: usize = start;
    let mut value: u32 = 0;
    let mut overflowed = false;
    while i < text.len() && '0' <= text[i] && text[i] <= '9'
        invariant
            start <= i <= text@.len(),
            i <= start + run,
            run == digit_run(text@, start as int),
            0 <= run <= text@.len() - start,
            forall|k: int| start <= k < start + run ==> #[trigger] is_digit(text@[k]),
            start + run < text@.len() ==> !is_digit(text@[start + run]),
            overflowed ==> digits_value(text@.subrange(start as int, i as int)) > 255,
            !overflowed ==> value == digits_value(text@.subrange(start as int, i as int)) && value <= 255,
        decreases text@.len() - i,
    {
        let c = text[i];
        proof {
            lemma_digits_value_grows(text@.subrange(start as int, i as int), c);
            assert(text@.subrange(start as int, i + 1) =~= text@.subrange(start as int, i as int).push(c));
        }
        if !overflowed {
            let next = value * 10 + (c as u32 - '0' as u32);
            if next > 255 {
                overflowed = true;
            } else {
                value = next;
            }
        }
        i = i + 1;
    }
    proof {
        if i < start + run {
            assert(is_digit(text@[i as int]));
        }
    }
    assert(i == start + run);
    if i == start || overflowed {
        None
    } else {
        Some(value as u8)
    }
}


/// The creatures among the first `n` permanents, in order.
pub open spec fn creatures_among(permanents: Seq<Permanent>, n: int) -> Seq<Permanent>
    decreases n,
{
    if n <= 0 {
        Seq::empty()
    } else if permanents[n - 1].is_creature {
        creatures_among(permanents, n - 1).push(permanents[n - 1])
    } else {
        creatures_among(permanents, n - 1)
    }
}

/// The creatures among `permanents`, in order.
fn creatures_of(permanents: &Vec<Permanent>) -> (creatures: Vec<&Permanent>)
    ensures
        creatures@.map_values(|p: &Permanent| *p) == creatures_among(permanents@, permanents@.len() as int),
{
    let mut creatures: Vec<&Permanent> = Vec::new();
    let mut i: usize = 0;
    assert(creatures@.map_values(|p: &Permanent| *p) =~= Seq::<Permanent>::empty());
    while i < permanents.len()
        invariant
            i <= permanents@.len(),
            creatures@.map_values(|p: &Permanent| *p) == creatures_among(permanents@, i as int),
        decreases permanents@.len() - i,
    {
        let permanent = &permanents[i];
        let ghost before = creatures@;
        if permanent.is_creature {
            creatures.push(permanent);
            assert(creatures@ =~= before.push(permanent));
            assert(creatures@.map_values(|p: &Permanent| *p) =~= before.map_values(|p: &Permanent| *p).push(*permanent));
        }
        i = i + 1;
    }
    creatures
}

} // verus!
