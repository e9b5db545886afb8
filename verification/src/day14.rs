//! A nanofactory: recipes turn quantities of input chemicals into a
//! quantity of an output chemical, ore is mined rather than made, and the
//! cost of fuel is found by working backwards through the recipe book,
//! banking leftovers.

use vstd::prelude::*;

use crate::text::{
    find_sep, int_literal_val, is_int_literal, parse_i64, spec_split, spec_trim, split_char,
    trim_str,
};

verus! {

/// A chemical, named by a string.
pub struct Chemical(pub String);

impl View for Chemical {
    type V = Seq<char>;

    open spec fn view(&self) -> Seq<char> {
        self.0@
    }
}

impl Chemical {
    /// A chemical with the given name.
    pub fn new(s: &str) -> (r: Chemical)
        ensures
            r@ == s@,
    {
        Chemical(String::from_str(s))
    }

    /// Whether this is ore, the one chemical that is mined, not made.
    pub fn is_ore(&self) -> (r: bool)
        ensures
            r == (self@ == spec_ore_name()),
    {
        let ore = String::from_str("ORE");
        proof {
            reveal_strlit("ORE");
            assert(ore@ =~= spec_ore_name());
        }
        self.0.eq(&ore)
    }

    /// An exact copy of this chemical.
    pub fn duplicate(&self) -> (r: Chemical)
        ensures
            r@ == self@,
    {
        Chemical(self.0.clone())
    }
}

/// The name of the mined chemical.
pub open spec fn spec_ore_name() -> Seq<char> {
    seq!['O', 'R', 'E']
}

/// A quantity of a chemical.
pub struct Reagent {
    pub quantity: i64,
    pub chemical: Chemical,
}

/// Why recipe text could not be understood.
#[derive(Debug)]
pub enum BadInput {
    FormatError(String),
}

/// What a reagent field denotes: its quantity and chemical name, if the
/// field is a quantity, one space, and a name.
pub open spec fn spec_reagent(s: Seq<char>) -> Option<(int, Seq<char>)> {
    let i = find_sep(s, ' ');
    if i >= s.len() {
        None
    } else {
        let q = s.take(i);
        let c = s.skip(i + 1);
        if is_int_literal(q) && i64::MIN <= int_literal_val(q) <= i64::MAX {
            Some((int_literal_val(q), c))
        } else {
            None
        }
    }
}

impl Reagent {
    /// Parse a `QTY CHEMICAL` pair, splitting at the first space.
    pub fn parse(s: &str) -> (r: Result<Reagent, BadInput>)
        ensures
            match r {
                Ok(reagent) => spec_reagent(s@) == Some(
                    (reagent.quantity as int, reagent.chemical@),
                ),
                Err(_) => spec_reagent(s@) is None,
            },
    {
        let n = s.unicode_len();
        let mut i: usize = 0;
        while i < n && s.get_char(i) != ' '
            invariant
                i <= n,
                n == s@.len(),
                forall|j: int| 0 <= j < i ==> s@[j] != ' ',
            decreases n - i,
        {
            i = i + 1;
        }
        proof {
            crate::text::lemma_find_sep_converse(s@, ' ', i as int);
        }
        if i == n {
            return Err(BadInput::FormatError(String::from_str("expected a QTY CHEMICAL pair")));
        }
        let q = s.substring_char(0, i);
        let c = s.substring_char(i + 1, n);
        match parse_i64(q) {
            Some(v) => Ok(Reagent { quantity: v, chemical: Chemical::new(c) }),
            None => Err(BadInput::FormatError(String::from_str("invalid quantity"))),
        }
    }
}

/// A recipe: what it consumes and what it produces.
pub struct Recipe {
    pub inputs: Vec<Reagent>,
    pub output: Reagent,
}

impl Recipe {
    /// How many times this recipe must run to produce at least `quantity`
    /// of its output.
    pub fn multiplier_to_produce(&self, quantity: &i64) -> (r: i64)
        requires
            self.output.quantity >= 1,
            *quantity >= 0,
            *quantity + self.output.quantity - 1 <= i64::MAX,
        ensures
            r as int == (*quantity + self.output.quantity - 1) / (self.output.quantity as int),
    {
        let d = self.output.quantity;
        ((*quantity as u64 + d as u64 - 1) / d as u64) as i64
    }
}

/// What a recipe line denotes, if each comma-separated field on the left
/// of the arrow, and the right of the arrow, is a reagent.  Fields are
/// trimmed, so a space after each comma is accepted.
pub open spec fn spec_recipe(s: Seq<char>) -> Option<(Seq<(int, Seq<char>)>, (int, Seq<char>))> {
    let i = arrow_pos(s);
    if i > s.len() - 4 {
        None
    } else {
        let lhs = s.take(i);
        let rhs = s.skip(i + 4);
        let fields = spec_split(lhs, ',').map_values(|f: Seq<char>| spec_trim(f));
        if (forall|j: int| 0 <= j < fields.len() ==> spec_reagent(#[trigger] fields[j]) is Some)
            && spec_reagent(rhs) is Some {
            Some(
                (
                    Seq::new(fields.len(), |j: int| spec_reagent(fields[j]).unwrap()),
                    spec_reagent(rhs).unwrap(),
                ),
            )
        } else {
            None
        }
    }
}

/// Whether the four-character arrow ` => ` stands at position `i`.
pub open spec fn is_arrow_at(s: Seq<char>, i: int) -> bool {
    &&& 0 <= i
    &&& i + 4 <= s.len()
    &&& s[i] == ' '
    &&& s[i + 1] == '='
    &&& s[i + 2] == '>'
    &&& s[i + 3] == ' '
}

/// The position of the first arrow in `s`, or the length of `s` if there
/// is none.
pub open spec fn arrow_pos(s: Seq<char>) -> int
    decreases s.len(),
{
    if s.len() == 0 {
        0
    } else if is_arrow_at(s, 0) {
        0
    } else {
        1 + arrow_pos(s.skip(1))
    }
}

/// `arrow_pos` names the first arrow.
proof fn lemma_arrow_pos(s: Seq<char>)
    ensures
        0 <= arrow_pos(s) <= s.len(),
        arrow_pos(s) <= s.len() - 4 ==> is_arrow_at(s, arrow_pos(s)),
        forall|j: int| 0 <= j < arrow_pos(s) ==> !is_arrow_at(s, j),
    decreases s.len(),
{
    if s.len() > 0 && !is_arrow_at(s, 0) {
        lemma_arrow_pos(s.skip(1));
        assert forall|j: int| 0 <= j < arrow_pos(s) implies !is_arrow_at(s, j) by {
            if j > 0 {
                if is_arrow_at(s, j) {
                    assert(s.skip(1)[j - 1] == s[j]);
                    assert(s.skip(1)[j] == s[j + 1]);
                    assert(s.skip(1)[j + 1] == s[j + 2]);
                    assert(s.skip(1)[j + 2] == s[j + 3]);
                    assert(is_arrow_at(s.skip(1), j - 1));
                    assert(false);
                }
            }
        }
        if arrow_pos(s) <= s.len() - 4 {
            let i = arrow_pos(s.skip(1));
            assert(s.skip(1)[i] == s[i + 1]);
            assert(s.skip(1)[i + 1] == s[i + 2]);
            assert(s.skip(1)[i + 2] == s[i + 3]);
            assert(s.skip(1)[i + 3] == s[i + 4]);
        }
    }
}

/// If nothing before `i` is an arrow and either an arrow stands at `i` or
/// `i` is past the last possible position, then `i` is where `arrow_pos`
/// points... at least as far as arrows can stand.
proof fn lemma_arrow_pos_converse(s: Seq<char>, i: int)
    requires
        0 <= i <= s.len(),
        forall|j: int| 0 <= j < i ==> !is_arrow_at(s, j),
        i <= s.len() - 4 ==> is_arrow_at(s, i),
        i > s.len() - 4 ==> i == s.len(),
    ensures
        i <= s.len() - 4 ==> arrow_pos(s) == i,
        i > s.len() - 4 ==> arrow_pos(s) > s.len() - 4,
    decreases s.len(),
{
    lemma_arrow_pos(s);
    if i <= s.len() - 4 {
        if arrow_pos(s) < i {
            assert(is_arrow_at(s, arrow_pos(s)));
            assert(false);
        }
        if arrow_pos(s) > i {
            assert(!is_arrow_at(s, i));
            assert(false);
        }
    } else {
        if arrow_pos(s) <= s.len() - 4 {
            assert(is_arrow_at(s, arrow_pos(s)));
            assert(false);
        }
    }
}

impl Recipe {
    /// Parse a recipe line: comma-separated reagents, an arrow, and the
    /// produced reagent.
    pub fn parse(s: &str) -> (r: Result<Recipe, BadInput>)
        ensures
            match r {
                Ok(recipe) => {
                    let parsed = spec_recipe(s@);
                    &&& parsed is Some
                    &&& recipe.inputs@.len() == parsed.unwrap().0.len()
                    &&& forall|j: int|
                        0 <= j < recipe.inputs@.len() ==> (
                        #[trigger] recipe.inputs@[j]).quantity as int == parsed.unwrap().0[j].0
                            && recipe.inputs@[j].chemical@ == parsed.unwrap().0[j].1
                    &&& recipe.output.quantity as int == parsed.unwrap().1.0
                    &&& recipe.output.chemical@ == parsed.unwrap().1.1
                },
                Err(_) => spec_recipe(s@) is None,
            },
    {
        let n = s.unicode_len();
        let mut i: usize = 0;
        while i < n && !(n - i >= 4 && s.get_char(i) == ' ' && s.get_char(i + 1) == '='
            && s.get_char(i + 2) == '>' && s.get_char(i + 3) == ' ')
            invariant
                i <= n,
                n == s@.len(),
                forall|j: int| 0 <= j < i ==> !is_arrow_at(s@, j),
            decreases n - i,
        {
            i = i + 1;
        }
        if i == n {
            proof {
                lemma_arrow_pos_converse(s@, i as int);
            }
            return Err(BadInput::FormatError(String::from_str("expected an arrow")));
        }
        proof {
            lemma_arrow_pos_converse(s@, i as int);
        }
        let lhs = s.substring_char(0, i);
        let rhs = s.substring_char(i + 4, n);
        proof {
            assert(lhs@ =~= s@.take(i as int));
            assert(rhs@ =~= s@.skip(i as int + 4));
        }
        let ghost fields_spec = spec_split(s@.take(i as int), ',').map_values(
            |f: Seq<char>| spec_trim(f),
        );
        let fields = split_char(lhs, ',');
        let mut inputs: Vec<Reagent> = Vec::new();
        let mut fi: usize = 0;
        while fi < fields.len()
            invariant
                fi <= fields@.len(),
                arrow_pos(s@) <= s@.len() - 4,
                fields@.map_values(|t: String| t@) == spec_split(s@.take(arrow_pos(s@)), ','),
                fields_spec == spec_split(s@.take(arrow_pos(s@)), ',').map_values(
                    |f: Seq<char>| spec_trim(f),
                ),
                inputs@.len() == fi,
                forall|j: int|
                    0 <= j < fi ==> spec_reagent(#[trigger] fields_spec[j]) is Some,
                forall|j: int|
                    0 <= j < fi ==> (#[trigger] inputs@[j]).quantity as int == spec_reagent(
                        fields_spec[j],
                    ).unwrap().0 && inputs@[j].chemical@ == spec_reagent(
                        fields_spec[j],
                    ).unwrap().1,
            decreases fields@.len() - fi,
        {
            let trimmed = trim_str(fields[fi].as_str());
            proof {
                assert(fields_spec[fi as int] == spec_trim(fields@[fi as int]@));
            }
            match Reagent::parse(trimmed.as_str()) {
                Ok(reagent) => {
                    inputs.push(reagent);
                },
                Err(e) => {
                    return Err(e);
                },
            }
            fi = fi + 1;
        }
        let output = match Reagent::parse(rhs) {
            Ok(reagent) => reagent,
            Err(e) => {
                return Err(e);
            },
        };
        Ok(Recipe { inputs, output })
    }
}

/// Parse a whole recipe book, one recipe per line.
pub fn parse_recipes(input: &[String]) -> (r: Result<Vec<Recipe>, BadInput>)
    ensures
        match r {
            Ok(recipes) => {
                &&& recipes@.len() == input@.len()
                &&& forall|i: int|
                    0 <= i < input@.len() ==> spec_recipe(#[trigger] input@[i]@) is Some
            },
            Err(_) => exists|i: int|
                0 <= i < input@.len() && spec_recipe(#[trigger] input@[i]@) is None,
        },
{
    let mut recipes: Vec<Recipe> = Vec::new();
    let mut i: usize = 0;
    while i < input.len()
        invariant
            i <= input@.len(),
            recipes@.len() == i,
            forall|j: int| 0 <= j < i ==> spec_recipe(#[trigger] input@[j]@) is Some,
        decreases input@.len() - i,
    {
        match Recipe::parse(input[i].as_str()) {
            Ok(recipe) => {
                recipes.push(recipe);
            },
            Err(e) => {
                return Err(e);
            },
        }
        i = i + 1;
    }
    Ok(recipes)
}

/// The index of the last recipe producing `name`, if any.
pub open spec fn last_producer(entries: Seq<Recipe>, name: Seq<char>) -> Option<int>
    decreases entries.len(),
{
    if entries.len() == 0 {
        None
    } else if entries.last().output.chemical@ == name {
        Some(entries.len() - 1)
    } else {
        last_producer(entries.drop_last(), name)
    }
}

/// The recipe book, looked up by produced chemical.  When two recipes
/// produce the same chemical, the later one wins.
pub struct RecipeMap {
    entries: Vec<Recipe>,
}

impl RecipeMap {
    /// The recipes, in insertion order.
    pub closed spec fn spec_entries(&self) -> Seq<Recipe> {
        self.entries@
    }

    /// The recipe that produces `chem`, if any; the last one inserted
    /// wins.
    pub fn get(&self, chem: &Chemical) -> (r: Option<&Recipe>)
        ensures
            match r {
                Some(recipe) => {
                    &&& last_producer(self.spec_entries(), chem@) is Some
                    &&& *recipe == self.spec_entries()[last_producer(
                        self.spec_entries(),
                        chem@,
                    ).unwrap()]
                },
                None => last_producer(self.spec_entries(), chem@) is None,
            },
    {
        let n = self.entries.len();
        let mut i: usize = n;
        proof {
            assert(self.spec_entries().take(n as int) =~= self.spec_entries());
        }
        while i > 0
            invariant
                i <= n,
                n == self.spec_entries().len(),
                last_producer(self.spec_entries(), chem@) == last_producer(
                    self.spec_entries().take(i as int),
                    chem@,
                ),
            decreases i,
        {
            proof {
                let t = self.spec_entries().take(i as int);
                assert(t.last() == self.spec_entries()[i - 1]);
                assert(t.drop_last() =~= self.spec_entries().take(i as int - 1));
            }
            if self.entries[i - 1].output.chemical.0.eq(&chem.0) {
                return Some(&self.entries[i - 1]);
            }
            i = i - 1;
        }
        proof {
            assert(self.spec_entries().take(0) =~= Seq::<Recipe>::empty());
        }
        None
    }
}

/// Build the recipe book from parsed recipes, adding the pseudo-recipe
/// that makes one unit of ore from nothing.
pub fn make_recipe_map(recipes: Vec<Recipe>) -> (r: RecipeMap)
    ensures
        r.spec_entries().len() == recipes@.len() + 1,
        forall|i: int| 0 <= i < recipes@.len() ==> r.spec_entries()[i] == recipes@[i],
        r.spec_entries().last().output.chemical@ == spec_ore_name(),
        r.spec_entries().last().output.quantity == 1,
        r.spec_entries().last().inputs@.len() == 0,
{
    let mut entries = recipes;
    let ore = Recipe {
        inputs: Vec::new(),
        output: Reagent { quantity: 1, chemical: Chemical::new("ORE") },
    };
    proof {
        reveal_strlit("ORE");
        assert(ore.output.chemical@ =~= spec_ore_name());
    }
    entries.push(ore);
    RecipeMap { entries }
}

/// The chemicals still to be produced, with quantities merged by
/// chemical.
pub struct Wanted {
    items: Vec<(Chemical, i64)>,
}

impl Wanted {
    /// The outstanding demands, in stack order.
    pub closed spec fn items(&self) -> Seq<(Chemical, i64)> {
        self.items@
    }

    /// Whether every outstanding quantity is non-negative.
    pub open spec fn wf(&self) -> bool {
        forall|i: int| 0 <= i < self.items().len() ==> (#[trigger] self.items()[i]).1 >= 0
    }

    /// Nothing wanted yet.
    pub fn new() -> (r: Wanted)
        ensures
            r.items().len() == 0,
            r.wf(),
    {
        Wanted { items: Vec::new() }
    }

    /// Take the most recently added demand, if any.
    pub fn pop(&mut self) -> (r: Option<(Chemical, i64)>)
        requires
            old(self).wf(),
        ensures
            final(self).wf(),
            match r {
                Some(item) => {
                    &&& old(self).items().len() > 0
                    &&& item == old(self).items().last()
                    &&& final(self).items() == old(self).items().drop_last()
                },
                None => old(self).items().len() == 0 && final(self).items() == old(self).items(),
            },
    {
        self.items.pop()
    }

    /// Add a demand, merging it into an existing demand for the same
    /// chemical if there is one.  Fails, changing nothing, when the
    /// merged quantity would overflow.
    pub fn push(&mut self, item: (Chemical, i64)) -> (r: Result<(), String>)
        requires
            old(self).wf(),
            item.1 >= 0,
        ensures
            final(self).wf(),
            r is Err ==> final(self).items() == old(self).items(),
            r is Ok ==> final(self).items().len() >= old(self).items().len(),
    {
        let n = self.items.len();
        let mut i: usize = 0;
        while i < n
            invariant
                i <= n,
                n == self.items().len(),
                self.wf(),
                self == old(self),
                item.1 >= 0,
            decreases n - i,
        {
            if self.items[i].0.0.eq(&item.0.0) {
                let q = self.items[i].1;
                match q.checked_add(item.1) {
                    Some(total) => {
                        let name = self.items[i].0.duplicate();
                        self.items[i] = (name, total);
                        return Ok(());
                    },
                    None => {
                        return Err(String::from_str("wanted quantity overflow"));
                    },
                }
            }
            i = i + 1;
        }
        self.items.push(item);
        Ok(())
    }
}

/// The stock of leftover chemicals, every level non-negative.
pub struct StockMap {
    items: Vec<(Chemical, i64)>,
}

impl StockMap {
    /// The stocked chemicals and their levels.
    pub closed spec fn items(&self) -> Seq<(Chemical, i64)> {
        self.items@
    }

    /// Whether every level is non-negative.
    pub open spec fn wf(&self) -> bool {
        forall|i: int| 0 <= i < self.items().len() ==> (#[trigger] self.items()[i]).1 >= 0
    }

    /// An empty stock.
    pub fn new() -> (r: StockMap)
        ensures
            r.wf(),
    {
        StockMap { items: Vec::new() }
    }

    /// The level on hand for `chem`; unknown chemicals are at level zero.
    pub fn level(&self, chem: &Chemical) -> (r: i64)
        requires
            self.wf(),
        ensures
            r >= 0,
    {
        let n = self.items.len();
        let mut i: usize = 0;
        while i < n
            invariant
                i <= n,
                n == self.items().len(),
                self.wf(),
            decreases n - i,
        {
            if self.items[i].0.0.eq(&chem.0) {
                return self.items[i].1;
            }
            i = i + 1;
        }
        0
    }

    /// Set the level for `chem`.
    pub fn set_level(&mut self, chem: &Chemical, value: i64)
        requires
            old(self).wf(),
            value >= 0,
        ensures
            final(self).wf(),
    {
        let n = self.items.len();
        let mut i: usize = 0;
        while i < n
            invariant
                i <= n,
                n == self.items().len(),
                self.wf(),
                self == old(self),
                value >= 0,
            decreases n - i,
        {
            if self.items[i].0.0.eq(&chem.0) {
                let name = self.items[i].0.duplicate();
                self.items[i] = (name, value);
                return ;
            }
            i = i + 1;
        }
        self.items.push((chem.duplicate(), value));
    }
}

/// Work backwards from the outstanding demands to the ore they cost.
///
/// Repeatedly takes a demand, runs its recipe enough times to cover the
/// demand, pays ore for ore inputs, draws on the stock for the rest, adds
/// any shortfall back as a new demand, and banks leftovers.  Fails when a
/// chemical has no recipe, when a quantity overflows, when a recipe is
/// malformed (non-positive output or negative input), or when the demand
/// queue is still busy after `max_rounds` rounds; the ore paid so far is
/// then abandoned.  The returned cost is never negative.
pub fn ore_cost_of(
    wanted: &mut Wanted,
    stock: &mut StockMap,
    mapping: &RecipeMap,
    max_rounds: u64,
) -> (r: Result<i64, String>)
    requires
        old(wanted).wf(),
        old(stock).wf(),
    ensures
        final(wanted).wf(),
        final(stock).wf(),
        r matches Ok(n) ==> n >= 0,
{
    let mut ore_used: i64 = 0;
    let mut rounds: u64 = 0;
    while rounds < max_rounds
        invariant
            wanted.wf(),
            stock.wf(),
            ore_used >= 0,
            rounds <= max_rounds,
        decreases max_rounds - rounds,
    {
        let (make_chemical, need_quantity) = match wanted.pop() {
            Some(item) => item,
            None => {
                return Ok(ore_used);
            },
        };
        let recipe = match mapping.get(&make_chemical) {
            Some(recipe) => recipe,
            None => {
                return Err(String::from_str("a wanted chemical has no recipe"));
            },
        };
        if recipe.output.quantity < 1 {
            return Err(String::from_str("recipe output must be positive"));
        }
        if need_quantity > i64::MAX - (recipe.output.quantity - 1) {
            return Err(String::from_str("demand overflow"));
        }
        let multiplier = recipe.multiplier_to_produce(&need_quantity);
        let make_quantity = match recipe.output.quantity.checked_mul(multiplier) {
            Some(q) => q,
            None => {
                return Err(String::from_str("production overflow"));
            },
        };
        if make_quantity < need_quantity {
            return Err(String::from_str("production underflow"));
        }
        let mut input_index: usize = 0;
        let inputs_len = recipe.inputs.len();
        while input_index < inputs_len
            invariant
                input_index <= inputs_len,
                inputs_len == recipe.inputs@.len(),
                wanted.wf(),
                stock.wf(),
                ore_used >= 0,
                multiplier >= 0,
            decreases inputs_len - input_index,
        {
            let input = &recipe.inputs[input_index];
            let needed = match input.quantity.checked_mul(multiplier) {
                Some(q) => q,
                None => {
                    return Err(String::from_str("consumption overflow"));
                },
            };
            if needed < 0 {
                return Err(String::from_str("recipe input must not be negative"));
            }
            if input.chemical.is_ore() {
                // ore is never banked: it is mined afresh each time
                ore_used = match ore_used.checked_add(needed) {
                    Some(total) => total,
                    None => {
                        return Err(String::from_str("ore total overflow"));
                    },
                };
            }
            let onhand = stock.level(&input.chemical);
            if onhand >= needed {
                stock.set_level(&input.chemical, onhand - needed);
            } else {
                let deficit = needed - onhand;
                stock.set_level(&input.chemical, 0);
                match wanted.push((input.chemical.duplicate(), deficit)) {
                    Ok(()) => (),
                    Err(e) => {
                        return Err(e);
                    },
                }
            }
            input_index = input_index + 1;
        }
        let left_over = make_quantity - need_quantity;
        let onhand = stock.level(&make_chemical);
        let new_level = match onhand.checked_add(left_over) {
            Some(level) => level,
            None => {
                return Err(String::from_str("stock overflow"));
            },
        };
        stock.set_level(&make_chemical, new_level);
        rounds = rounds + 1;
    }
    if wanted.pop().is_none() {
        Ok(ore_used)
    } else {
        Err(String::from_str("demand queue still busy after the round limit"))
    }
}

/// The ore cost of producing `fuel_demand` units of fuel from an empty
/// stock.  The returned cost is never negative.
pub fn ore_cost_of_fuel(fuel_demand: i64, mapping: &RecipeMap) -> (r: Result<i64, String>)
    requires
        fuel_demand >= 0,
    ensures
        r matches Ok(n) ==> n >= 0,
{
    let mut wanted = Wanted::new();
    match wanted.push((Chemical::new("FUEL"), fuel_demand)) {
        Ok(()) => (),
        Err(e) => {
            return Err(e);
        },
    }
    let mut stock = StockMap::new();
    ore_cost_of(&mut wanted, &mut stock, mapping, 10_000_000)
}

/// The ore cost of one unit of fuel.
pub fn solve1(mapping: &RecipeMap) -> (r: Result<i64, String>)
    ensures
        r matches Ok(n) ==> n >= 0,
{
    ore_cost_of_fuel(1, mapping)
}

/// Search an integer range, open at the top, for the value a comparator
/// is aiming at.
///
/// `test(guess)` answers how the sought value compares with the guess, or
/// reports an error, which aborts the search.  When no upper bound is
/// given the guess doubles until the comparator answers `Less`; the
/// search then narrows as usual.  When the comparator never answers
/// `Equal`, the search settles just below the sought value, returning the
/// largest guess the comparator called `Greater` (or `lower - 1` if there
/// was none).
pub fn open_ended_binary_search<F: Fn(i64) -> Result<core::cmp::Ordering, String>>(
    lower: i64,
    upper: Option<i64>,
    test: F,
) -> (r: Result<i64, String>)
    requires
        lower >= 1,
        upper matches Some(u) ==> lower <= u,
        forall|g: i64| #[trigger] call_requires(test, (g,)),
        forall|ret: Result<core::cmp::Ordering, String>|
            call_ensures(test, (i64::MAX,), ret) ==> !(ret matches Ok(
                core::cmp::Ordering::Greater,
            )),
    ensures
        r matches Ok(v) ==> v >= lower - 1,
{
    let mut lo = lower;
    let mut upper = upper;
    let mut guess = lo;
    loop
        invariant
            1 <= lo,
            lower <= lo,
            lo <= guess,
            upper matches Some(u) ==> guess <= u,
            forall|g: i64| #[trigger] call_requires(test, (g,)),
            forall|ret: Result<core::cmp::Ordering, String>|
                call_ensures(test, (i64::MAX,), ret) ==> !(ret matches Ok(
                    core::cmp::Ordering::Greater,
                )),
        decreases
                (if upper is Some {
                    0int
                } else {
                    1int
                }),
                (match upper {
                    Some(u) => u - lo,
                    None => i64::MAX - guess,
                }),
                guess - lo,
    {
        let previous_guess = guess;
        let comparison_result = match test(guess) {
            Ok(o) => o,
            Err(e) => {
                return Err(e);
            },
        };
        match comparison_result {
            core::cmp::Ordering::Less => {
                // the sought value is below the guess
                upper = Some(guess);
                let half = ((guess - lo) as u64 / 2) as i64;
                guess = lo + half;
                if guess == previous_guess {
                    return Ok(lo - 1);
                }
            },
            core::cmp::Ordering::Equal => {
                return Ok(guess);
            },
            core::cmp::Ordering::Greater => {
                match upper {
                    Some(u) => {
                        // the sought value is above the guess
                        if guess >= u {
                            return Ok(u);
                        }
                        lo = guess + 1;
                        let half = ((u - lo) as u64 / 2) as i64;
                        guess = lo + half;
                        if guess == previous_guess {
                            return Ok(u);
                        }
                    },
                    None => {
                        lo = guess;
                        guess = match guess.checked_mul(2) {
                            Some(n) => n,
                            None => i64::MAX,
                        };
                    },
                }
            },
        }
    }
}

/// The largest amount of fuel whose ore cost stays within a trillion
/// units of ore.
pub fn solve2(mapping: &RecipeMap) -> (r: Result<i64, String>)
    ensures
        r matches Ok(v) ==> v >= 0,
{
    let check = |fuel: i64| -> (ret: Result<core::cmp::Ordering, String>)
        ensures
            fuel == i64::MAX ==> !(ret matches Ok(core::cmp::Ordering::Greater)),
        {
            if fuel < 0 || fuel == i64::MAX {
                return Err(String::from_str("fuel probe out of range"));
            }
            let required_ore = match ore_cost_of_fuel(fuel, mapping) {
                Ok(n) => n,
                Err(e) => {
                    return Err(e);
                },
            };
            let one_trillion: i64 = 1_000_000_000_000;
            // more ore than the budget means the fuel target is below the
            // probe, and vice versa
            if required_ore > one_trillion {
                Ok(core::cmp::Ordering::Less)
            } else if required_ore == one_trillion {
                Ok(core::cmp::Ordering::Equal)
            } else {
                Ok(core::cmp::Ordering::Greater)
            }
        };
    open_ended_binary_search(1, None, check)
}

} // verus!
