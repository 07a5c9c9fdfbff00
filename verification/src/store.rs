//! The relational store behind the planner: five tables held in memory,
//! with unique keys and foreign keys checked on every write, the way the
//! application's database schema declares them.

use vstd::prelude::*;

use crate::date::Date;
use crate::models::{
    Day, DayForm, DayIngredient, DbError, ExtraItem, ExtraItemForm, Ingredient, IngredientForm,
    Meal, MealForm,
};

verus! {

/// The mathematical content of a [`Database`]: each table as a sequence
/// of rows in insertion order, and the next free row id of each table
/// that allocates ids.
#[verifier::ext_equal]
pub struct StateV {
    pub days: Seq<Day>,
    pub meals: Seq<Meal>,
    pub ingredients: Seq<Ingredient>,
    pub day_ingredients: Seq<DayIngredient>,
    pub extra_items: Seq<ExtraItem>,
    pub next_day_id: int,
    pub next_meal_id: int,
    pub next_ingredient_id: int,
    pub next_extra_item_id: int,
}

pub open spec fn seq_has_meal(meals: Seq<Meal>, id: i32) -> bool {
    exists|i: int| 0 <= i < meals.len() && (#[trigger] meals[i]).id == id
}

pub open spec fn seq_has_day(days: Seq<Day>, id: i32) -> bool {
    exists|i: int| 0 <= i < days.len() && (#[trigger] days[i]).id == id
}

pub open spec fn seq_has_ingredient(ings: Seq<Ingredient>, id: i32) -> bool {
    exists|i: int| 0 <= i < ings.len() && (#[trigger] ings[i]).id == id
}

pub open spec fn has_meal(s: StateV, id: i32) -> bool {
    seq_has_meal(s.meals, id)
}

pub open spec fn has_day(s: StateV, id: i32) -> bool {
    seq_has_day(s.days, id)
}

pub open spec fn has_day_date(s: StateV, date: Date) -> bool {
    exists|i: int| 0 <= i < s.days.len() && (#[trigger] s.days[i]).date == date
}

pub open spec fn has_ingredient(s: StateV, id: i32) -> bool {
    seq_has_ingredient(s.ingredients, id)
}

pub open spec fn has_extra_item(s: StateV, id: i32) -> bool {
    exists|i: int| 0 <= i < s.extra_items.len() && (#[trigger] s.extra_items[i]).id == id
}

pub open spec fn has_day_ingredient(s: StateV, day_id: i32, ingredient_id: i32) -> bool {
    exists|i: int|
        0 <= i < s.day_ingredients.len() && (#[trigger] s.day_ingredients[i]).day_id == day_id
            && s.day_ingredients[i].ingredient_id == ingredient_id
}

/// The ingredient rows of one meal, in insertion order.
pub open spec fn ings_of_meal(s: StateV, meal_id: i32) -> Seq<Ingredient> {
    s.ingredients.filter(|g: Ingredient| g.meal_id == meal_id)
}

/// The day rows assigned to one meal, in insertion order.
pub open spec fn days_of_meal(s: StateV, meal_id: i32) -> Seq<Day> {
    s.days.filter(|d: Day| d.meal_id == Some(meal_id))
}

/// The shopping-state rows of one day, in insertion order.
pub open spec fn dis_of_day(s: StateV, day_id: i32) -> Seq<DayIngredient> {
    s.day_ingredients.filter(|di: DayIngredient| di.day_id == day_id)
}

/// The shopping-state rows left after one day's rows are dropped.
pub open spec fn dis_without_day(dis: Seq<DayIngredient>, day_id: i32) -> Seq<DayIngredient> {
    dis.filter(|di: DayIngredient| di.day_id != day_id)
}

/// Whether `ings` holds an ingredient row `ing_id` of meal `meal_id`.
pub open spec fn seq_ing_belongs(ings: Seq<Ingredient>, ing_id: i32, meal_id: i32) -> bool {
    exists|i: int|
        0 <= i < ings.len() && (#[trigger] ings[i]).id == ing_id && ings[i].meal_id == meal_id
}

/// Whether ingredient `ing_id` is a row of meal `meal_id`.
pub open spec fn ing_belongs_to_meal(s: StateV, ing_id: i32, meal_id: i32) -> bool {
    seq_ing_belongs(s.ingredients, ing_id, meal_id)
}

/// Whether any day is assigned meal `meal_id`.
pub open spec fn meal_in_use(s: StateV, meal_id: i32) -> bool {
    exists|i: int| 0 <= i < s.days.len() && (#[trigger] s.days[i]).meal_id == Some(meal_id)
}

/// The meal rows left after meal `id` is dropped.
pub open spec fn meals_without(s: StateV, id: i32) -> Seq<Meal> {
    s.meals.filter(|m: Meal| m.id != id)
}

/// The ingredient rows left after meal `meal_id`'s rows are dropped.
pub open spec fn ings_without_meal(s: StateV, meal_id: i32) -> Seq<Ingredient> {
    s.ingredients.filter(|g: Ingredient| g.meal_id != meal_id)
}

/// The shopping-state rows left after those of meal `meal_id`'s
/// ingredients are dropped — the cleanup that deleting those
/// ingredients cascades into.
pub open spec fn dis_without_meal_ings(s: StateV, meal_id: i32) -> Seq<DayIngredient> {
    s.day_ingredients.filter(
        |di: DayIngredient| !seq_ing_belongs(s.ingredients, di.ingredient_id, meal_id),
    )
}

pub open spec fn meals_ok(meals: Seq<Meal>, next_id: int) -> bool {
    &&& forall|i: int, j: int|
        0 <= i < j < meals.len() ==> (#[trigger] meals[i]).id != (#[trigger] meals[j]).id
    &&& forall|i: int| 0 <= i < meals.len() ==> 1 <= (#[trigger] meals[i]).id < next_id
}

pub open spec fn days_ok(days: Seq<Day>, meals: Seq<Meal>, next_id: int) -> bool {
    &&& forall|i: int, j: int|
        0 <= i < j < days.len() ==> (#[trigger] days[i]).id != (#[trigger] days[j]).id
    &&& forall|i: int, j: int|
        0 <= i < j < days.len() ==> (#[trigger] days[i]).date != (#[trigger] days[j]).date
    &&& forall|i: int| 0 <= i < days.len() ==> 1 <= (#[trigger] days[i]).id < next_id
    &&& forall|i: int|
        0 <= i < days.len() ==> ((#[trigger] days[i]).meal_id matches Some(mid) ==> seq_has_meal(
            meals,
            mid,
        ))
}

pub open spec fn ingredients_ok(ings: Seq<Ingredient>, meals: Seq<Meal>, next_id: int) -> bool {
    &&& forall|i: int, j: int|
        0 <= i < j < ings.len() ==> (#[trigger] ings[i]).id != (#[trigger] ings[j]).id
    &&& forall|i: int| 0 <= i < ings.len() ==> 1 <= (#[trigger] ings[i]).id < next_id
    &&& forall|i: int|
        0 <= i < ings.len() ==> seq_has_meal(meals, (#[trigger] ings[i]).meal_id)
}

pub open spec fn day_ingredients_ok(
    dis: Seq<DayIngredient>,
    days: Seq<Day>,
    ings: Seq<Ingredient>,
) -> bool {
    &&& forall|i: int, j: int|
        0 <= i < j < dis.len() ==> !((#[trigger] dis[i]).day_id == (#[trigger] dis[j]).day_id
            && dis[i].ingredient_id == dis[j].ingredient_id)
    &&& forall|i: int| 0 <= i < dis.len() ==> seq_has_day(days, (#[trigger] dis[i]).day_id)
    &&& forall|i: int|
        0 <= i < dis.len() ==> seq_has_ingredient(ings, (#[trigger] dis[i]).ingredient_id)
}

pub open spec fn extra_items_ok(extras: Seq<ExtraItem>, next_id: int) -> bool {
    &&& forall|i: int, j: int|
        0 <= i < j < extras.len() ==> (#[trigger] extras[i]).id != (#[trigger] extras[j]).id
    &&& forall|i: int| 0 <= i < extras.len() ==> 1 <= (#[trigger] extras[i]).id < next_id
}

/// The store's well-formedness: unique keys, live foreign keys, and row
/// ids below the next free id of their table.
pub open spec fn inv(s: StateV) -> bool {
    &&& meals_ok(s.meals, s.next_meal_id)
    &&& days_ok(s.days, s.meals, s.next_day_id)
    &&& ingredients_ok(s.ingredients, s.meals, s.next_ingredient_id)
    &&& day_ingredients_ok(s.day_ingredients, s.days, s.ingredients)
    &&& extra_items_ok(s.extra_items, s.next_extra_item_id)
    &&& 1 <= s.next_day_id <= i32::MAX
    &&& 1 <= s.next_meal_id <= i32::MAX
    &&& 1 <= s.next_ingredient_id <= i32::MAX
    &&& 1 <= s.next_extra_item_id <= i32::MAX
}

/// Filtering a sequence extended by one element keeps the element
/// exactly when it satisfies the predicate.
pub proof fn lemma_filter_push<A>(s: Seq<A>, pred: spec_fn(A) -> bool, x: A)
    ensures
        s.push(x).filter(pred) == if pred(x) {
            s.filter(pred).push(x)
        } else {
            s.filter(pred)
        },
{
    reveal(Seq::filter);
    assert(s.push(x).drop_last() =~= s);
    assert(s.push(x).last() == x);
}

/// The step a retain loop takes: filtering one more element of `s`.
pub proof fn lemma_filter_take_push<A>(s: Seq<A>, pred: spec_fn(A) -> bool, i: int)
    requires
        0 <= i < s.len(),
    ensures
        s.take(i + 1).filter(pred) == if pred(s[i]) {
            s.take(i).filter(pred).push(s[i])
        } else {
            s.take(i).filter(pred)
        },
{
    assert(s.take(i + 1) =~= s.take(i).push(s[i]));
    lemma_filter_push(s.take(i), pred, s[i]);
}

/// A filter that keeps every element changes nothing.
pub proof fn lemma_filter_all<A>(s: Seq<A>, pred: spec_fn(A) -> bool)
    requires
        forall|i: int| 0 <= i < s.len() ==> pred(#[trigger] s[i]),
    ensures
        s.filter(pred) == s,
    decreases s.len(),
{
    reveal(Seq::filter);
    if s.len() == 0 {
        assert(s.filter(pred) =~= s);
    } else {
        lemma_filter_all(s.drop_last(), pred);
        assert(s.drop_last().push(s.last()) =~= s);
        assert(s.filter(pred) =~= s);
    }
}

/// A filter keeps only elements of the original sequence, and repeats
/// none of them when the original has no repeated element.
pub proof fn lemma_filter_distinct<A>(s: Seq<A>, pred: spec_fn(A) -> bool)
    ensures
        forall|i: int|
            0 <= i < s.filter(pred).len() ==> s.contains(#[trigger] s.filter(pred)[i]),
        (forall|i: int, j: int| 0 <= i < j < s.len() ==> s[i] != s[j]) ==> (forall|i: int, j: int|
            0 <= i < j < s.filter(pred).len() ==> s.filter(pred)[i] != s.filter(pred)[j]),
    decreases s.len(),
{
    reveal(Seq::filter);
    if s.len() > 0 {
        let dl = s.drop_last();
        lemma_filter_distinct(dl, pred);
        let f = s.filter(pred);
        let fdl = dl.filter(pred);
        assert forall|i: int| 0 <= i < f.len() implies s.contains(#[trigger] f[i]) by {
            if i < fdl.len() {
                assert(dl.contains(fdl[i]));
                let k = choose|k: int| 0 <= k < dl.len() && dl[k] == fdl[i];
                assert(s[k] == f[i]);
            } else {
                assert(f[i] == s[s.len() - 1]);
            }
        }
        if forall|i: int, j: int| 0 <= i < j < s.len() ==> s[i] != s[j] {
            assert(forall|i: int, j: int| 0 <= i < j < dl.len() ==> dl[i] != dl[j]);
            assert forall|i: int, j: int| 0 <= i < j < f.len() implies f[i] != f[j] by {
                if j < fdl.len() {
                    assert(fdl[i] != fdl[j]);
                } else {
                    assert(f[j] == s.last());
                    assert(dl.contains(fdl[i]));
                    let k = choose|k: int| 0 <= k < dl.len() && dl[k] == fdl[i];
                    assert(s[k] != s[s.len() - 1]);
                }
            }
        }
    }
}

/// The in-memory database: five tables and their id counters. Foreign
/// keys are enforced on every write, as the application's connection
/// setup demands of its storage engine.
pub struct Database {
    pub(crate) days: Vec<Day>,
    pub(crate) meals: Vec<Meal>,
    pub(crate) ingredients: Vec<Ingredient>,
    pub(crate) day_ingredients: Vec<DayIngredient>,
    pub(crate) extra_items: Vec<ExtraItem>,
    pub(crate) next_day_id: i32,
    pub(crate) next_meal_id: i32,
    pub(crate) next_ingredient_id: i32,
    pub(crate) next_extra_item_id: i32,
}

impl View for Database {
    type V = StateV;

    closed spec fn view(&self) -> StateV {
        StateV {
            days: self.days@,
            meals: self.meals@,
            ingredients: self.ingredients@,
            day_ingredients: self.day_ingredients@,
            extra_items: self.extra_items@,
            next_day_id: self.next_day_id as int,
            next_meal_id: self.next_meal_id as int,
            next_ingredient_id: self.next_ingredient_id as int,
            next_extra_item_id: self.next_extra_item_id as int,
        }
    }
}

impl Database {
    /// A fresh, empty store.
    pub fn new() -> (r: Database)
        ensures
            inv(r@),
            r@.days =~= Seq::<Day>::empty(),
            r@.meals =~= Seq::<Meal>::empty(),
            r@.ingredients =~= Seq::<Ingredient>::empty(),
            r@.day_ingredients =~= Seq::<DayIngredient>::empty(),
            r@.extra_items =~= Seq::<ExtraItem>::empty(),
            r@.next_day_id == 1,
            r@.next_meal_id == 1,
            r@.next_ingredient_id == 1,
            r@.next_extra_item_id == 1,
    {
        Database {
            days: Vec::new(),
            meals: Vec::new(),
            ingredients: Vec::new(),
            day_ingredients: Vec::new(),
            extra_items: Vec::new(),
            next_day_id: 1,
            next_meal_id: 1,
            next_ingredient_id: 1,
            next_extra_item_id: 1,
        }
    }

    /// The next ingredient id the store will assign.
    pub(crate) fn next_ingredient_id_now(&self) -> (r: i32)
        ensures
            r == self@.next_ingredient_id,
    {
        self.next_ingredient_id
    }

    /// The next meal id the store will assign.
    pub(crate) fn next_meal_id_now(&self) -> (r: i32)
        ensures
            r == self@.next_meal_id,
    {
        self.next_meal_id
    }

    /// The next day id the store will assign.
    pub(crate) fn next_day_id_now(&self) -> (r: i32)
        ensures
            r == self@.next_day_id,
    {
        self.next_day_id
    }

    /// How many day rows the store holds.
    pub(crate) fn days_len(&self) -> (r: usize)
        ensures
            r == self@.days.len(),
    {
        self.days.len()
    }

    /// The day row at position `i`.
    pub(crate) fn day_at(&self, i: usize) -> (r: Day)
        requires
            i < self@.days.len(),
        ensures
            r == self@.days[i as int],
    {
        self.days[i]
    }

    /// How many shopping-state rows the store holds.
    pub(crate) fn day_ingredients_len(&self) -> (r: usize)
        ensures
            r == self@.day_ingredients.len(),
    {
        self.day_ingredients.len()
    }

    /// The shopping-state row at position `i`.
    pub(crate) fn day_ingredient_at(&self, i: usize) -> (r: DayIngredient)
        requires
            i < self@.day_ingredients.len(),
        ensures
            r == self@.day_ingredients[i as int],
    {
        self.day_ingredients[i]
    }

    /// The ingredient row at position `i`.
    pub(crate) fn ingredient_at(&self, i: usize) -> (r: Ingredient)
        requires
            i < self@.ingredients.len(),
        ensures
            r == self@.ingredients[i as int],
    {
        self.ingredients[i].clone()
    }

    pub(crate) fn find_meal_idx(&self, id: i32) -> (r: Option<usize>)
        ensures
            match r {
                Some(k) => k < self@.meals.len() && self@.meals[k as int].id == id,
                None => !has_meal(self@, id),
            },
    {
        let mut i: usize = 0;
        while i < self.meals.len()
            invariant
                i <= self@.meals.len(),
                forall|j: int| 0 <= j < i ==> (#[trigger] self@.meals[j]).id != id,
            decreases self@.meals.len() - i,
        {
            if self.meals[i].id == id {
                return Some(i);
            }
            i = i + 1;
        }
        None
    }

    pub(crate) fn find_day_idx(&self, id: i32) -> (r: Option<usize>)
        ensures
            match r {
                Some(k) => k < self@.days.len() && self@.days[k as int].id == id,
                None => !has_day(self@, id),
            },
    {
        let mut i: usize = 0;
        while i < self.days.len()
            invariant
                i <= self@.days.len(),
                forall|j: int| 0 <= j < i ==> (#[trigger] self@.days[j]).id != id,
            decreases self@.days.len() - i,
        {
            if self.days[i].id == id {
                return Some(i);
            }
            i = i + 1;
        }
        None
    }

    pub(crate) fn find_day_by_date(&self, date: Date) -> (r: Option<usize>)
        ensures
            match r {
                Some(k) => k < self@.days.len() && self@.days[k as int].date == date,
                None => !has_day_date(self@, date),
            },
    {
        let mut i: usize = 0;
        while i < self.days.len()
            invariant
                i <= self@.days.len(),
                forall|j: int| 0 <= j < i ==> (#[trigger] self@.days[j]).date != date,
            decreases self@.days.len() - i,
        {
            if self.days[i].date == date {
                return Some(i);
            }
            i = i + 1;
        }
        None
    }

    pub(crate) fn find_ingredient_idx(&self, id: i32) -> (r: Option<usize>)
        ensures
            match r {
                Some(k) => k < self@.ingredients.len() && self@.ingredients[k as int].id == id,
                None => !has_ingredient(self@, id),
            },
    {
        let mut i: usize = 0;
        while i < self.ingredients.len()
            invariant
                i <= self@.ingredients.len(),
                forall|j: int| 0 <= j < i ==> (#[trigger] self@.ingredients[j]).id != id,
            decreases self@.ingredients.len() - i,
        {
            if self.ingredients[i].id == id {
                return Some(i);
            }
            i = i + 1;
        }
        None
    }

    pub(crate) fn find_extra_item_idx(&self, id: i32) -> (r: Option<usize>)
        ensures
            match r {
                Some(k) => k < self@.extra_items.len() && self@.extra_items[k as int].id == id,
                None => !has_extra_item(self@, id),
            },
    {
        let mut i: usize = 0;
        while i < self.extra_items.len()
            invariant
                i <= self@.extra_items.len(),
                forall|j: int| 0 <= j < i ==> (#[trigger] self@.extra_items[j]).id != id,
            decreases self@.extra_items.len() - i,
        {
            if self.extra_items[i].id == id {
                return Some(i);
            }
            i = i + 1;
        }
        None
    }

    pub(crate) fn find_day_ingredient_idx(&self, day_id: i32, ingredient_id: i32) -> (r: Option<usize>)
        ensures
            match r {
                Some(k) => k < self@.day_ingredients.len() && self@.day_ingredients[k as int].day_id
                    == day_id && self@.day_ingredients[k as int].ingredient_id == ingredient_id,
                None => !has_day_ingredient(self@, day_id, ingredient_id),
            },
    {
        let mut i: usize = 0;
        while i < self.day_ingredients.len()
            invariant
                i <= self@.day_ingredients.len(),
                forall|j: int|
                    0 <= j < i ==> !((#[trigger] self@.day_ingredients[j]).day_id == day_id
                        && self@.day_ingredients[j].ingredient_id == ingredient_id),
            decreases self@.day_ingredients.len() - i,
        {
            if self.day_ingredients[i].day_id == day_id && self.day_ingredients[i].ingredient_id
                == ingredient_id {
                return Some(i);
            }
            i = i + 1;
        }
        None
    }
}

impl DayIngredient {
    /// Every shopping-state row of every day.
    pub fn get_all(db: &Database) -> (r: Result<Vec<DayIngredient>, DbError>)
        ensures
            r matches Ok(v) && v@ == db@.day_ingredients,
    {
        let mut out: Vec<DayIngredient> = Vec::new();
        let mut i: usize = 0;
        while i < db.day_ingredients.len()
            invariant
                i <= db@.day_ingredients.len(),
                out@ == db@.day_ingredients.take(i as int),
            decreases db@.day_ingredients.len() - i,
        {
            out.push(db.day_ingredients[i]);
            proof {
                assert(out@ =~= db@.day_ingredients.take(i as int + 1));
            }
            i = i + 1;
        }
        proof {
            assert(db@.day_ingredients.take(db@.day_ingredients.len() as int)
                =~= db@.day_ingredients);
        }
        Ok(out)
    }

    /// Writes this row's bought flag as an idempotent upsert keyed by
    /// the (day, ingredient) pair: an existing row is overwritten in
    /// place, a missing one is inserted with the given flag. Refused
    /// when the day or the ingredient does not exist.
    pub fn update(&self, db: &mut Database) -> (r: Result<DayIngredient, DbError>)
        requires
            inv(old(db)@),
        ensures
            inv(final(db)@),
            match r {
                Ok(di) => {
                    &&& di == *self
                    &&& has_day(old(db)@, self.day_id)
                    &&& has_ingredient(old(db)@, self.ingredient_id)
                    &&& if has_day_ingredient(old(db)@, self.day_id, self.ingredient_id) {
                        exists|k: int|
                            0 <= k < old(db)@.day_ingredients.len() && (
                            #[trigger] old(db)@.day_ingredients[k]).day_id == self.day_id && old(
                                db,
                            )@.day_ingredients[k].ingredient_id == self.ingredient_id && final(db)@
                                == (StateV {
                                day_ingredients: old(db)@.day_ingredients.update(k, *self),
                                ..old(db)@
                            })
                    } else {
                        final(db)@ == (StateV {
                            day_ingredients: old(db)@.day_ingredients.push(*self),
                            ..old(db)@
                        })
                    }
                },
                Err(e) => {
                    &&& e == DbError::ForeignKeyViolation
                    &&& !(has_day(old(db)@, self.day_id) && has_ingredient(
                        old(db)@,
                        self.ingredient_id,
                    ))
                    &&& final(db)@ == old(db)@
                },
            },
    {
        let ghost s0 = db@;
        let day_there = db.find_day_idx(self.day_id);
        let ing_there = db.find_ingredient_idx(self.ingredient_id);
        if day_there.is_none() || ing_there.is_none() {
            return Err(DbError::ForeignKeyViolation);
        }
        match db.find_day_ingredient_idx(self.day_id, self.ingredient_id) {
            Some(k) => {
                db.day_ingredients.remove(k);
                db.day_ingredients.insert(k, *self);
                proof {
                    assert(db@.day_ingredients =~= s0.day_ingredients.update(k as int, *self));
                    assert(db@ =~= (StateV {
                        day_ingredients: s0.day_ingredients.update(k as int, *self),
                        ..s0
                    }));
                    assert forall|i: int|
                        0 <= i < db@.day_ingredients.len() implies has_day(
                        db@,
                        (#[trigger] db@.day_ingredients[i]).day_id,
                    ) && has_ingredient(db@, db@.day_ingredients[i].ingredient_id) by {
                        assert(s0.day_ingredients[i].day_id == db@.day_ingredients[i].day_id
                            && s0.day_ingredients[i].ingredient_id
                            == db@.day_ingredients[i].ingredient_id);
                        assert(has_day(s0, s0.day_ingredients[i].day_id));
                        assert(has_ingredient(s0, s0.day_ingredients[i].ingredient_id));
                    }
                }
                Ok(*self)
            },
            None => {
                db.day_ingredients.push(*self);
                proof {
                    assert(db@ =~= (StateV {
                        day_ingredients: s0.day_ingredients.push(*self),
                        ..s0
                    }));
                }
                Ok(*self)
            },
        }
    }

    /// Inserts this row; its day and ingredient must exist and its
    /// (day, ingredient) key must be free.
    pub fn insert(&self, db: &mut Database) -> (r: Result<DayIngredient, DbError>)
        requires
            inv(old(db)@),
        ensures
            inv(final(db)@),
            match r {
                Ok(di) => {
                    &&& di == *self
                    &&& has_day(old(db)@, self.day_id)
                    &&& has_ingredient(old(db)@, self.ingredient_id)
                    &&& !has_day_ingredient(old(db)@, self.day_id, self.ingredient_id)
                    &&& final(db)@ == (StateV {
                        day_ingredients: old(db)@.day_ingredients.push(*self),
                        ..old(db)@
                    })
                },
                Err(e) => {
                    &&& final(db)@ == old(db)@
                    &&& (e == DbError::ForeignKeyViolation || e == DbError::UniqueViolation)
                    &&& (e == DbError::ForeignKeyViolation <==> !(has_day(old(db)@, self.day_id)
                        && has_ingredient(old(db)@, self.ingredient_id)))
                    &&& (e == DbError::UniqueViolation <==> has_day(old(db)@, self.day_id)
                        && has_ingredient(old(db)@, self.ingredient_id) && has_day_ingredient(
                        old(db)@,
                        self.day_id,
                        self.ingredient_id,
                    ))
                },
            },
    {
        let ghost s0 = db@;
        let day_there = db.find_day_idx(self.day_id);
        let ing_there = db.find_ingredient_idx(self.ingredient_id);
        if day_there.is_none() || ing_there.is_none() {
            return Err(DbError::ForeignKeyViolation);
        }
        if db.find_day_ingredient_idx(self.day_id, self.ingredient_id).is_some() {
            return Err(DbError::UniqueViolation);
        }
        db.day_ingredients.push(*self);
        proof {
            assert(db@ =~= (StateV { day_ingredients: s0.day_ingredients.push(*self), ..s0 }));
        }
        Ok(*self)
    }

    /// Removes every shopping-state row of day `id`; the number of rows
    /// removed is returned.
    pub fn delete_for_day(db: &mut Database, id: i32) -> (r: Result<usize, DbError>)
        requires
            inv(old(db)@),
        ensures
            inv(final(db)@),
            final(db)@ == (StateV {
                day_ingredients: dis_without_day(old(db)@.day_ingredients, id),
                ..old(db)@
            }),
            r matches Ok(count) && count == old(db)@.day_ingredients.len() - final(db)@.day_ingredients.len(),
    {
        let ghost s0 = db@;
        let ghost pred = |di: DayIngredient| di.day_id != id;
        let before: usize = db.day_ingredients.len();
        let mut out: Vec<DayIngredient> = Vec::new();
        let mut i: usize = 0;
        while i < db.day_ingredients.len()
            invariant
                db@ == s0,
                i <= s0.day_ingredients.len(),
                out@ == s0.day_ingredients.take(i as int).filter(pred),
                pred == (|di: DayIngredient| di.day_id != id),
            decreases s0.day_ingredients.len() - i,
        {
            proof {
                lemma_filter_take_push(s0.day_ingredients, pred, i as int);
            }
            if db.day_ingredients[i].day_id != id {
                out.push(db.day_ingredients[i]);
            }
            i = i + 1;
        }
        proof {
            assert(s0.day_ingredients.take(s0.day_ingredients.len() as int)
                =~= s0.day_ingredients);
            s0.day_ingredients.lemma_filter_len(pred);
        }
        db.day_ingredients = out;
        let after: usize = db.day_ingredients.len();
        proof {
            assert(db@ =~= (StateV {
                day_ingredients: dis_without_day(s0.day_ingredients, id),
                ..s0
            }));
            lemma_filter_distinct(s0.day_ingredients, pred);
            let f = db@.day_ingredients;
            assert forall|i: int, j: int| 0 <= i < j < f.len() implies !((#[trigger] f[i]).day_id
                == (#[trigger] f[j]).day_id && f[i].ingredient_id == f[j].ingredient_id) by {
                if f[i].day_id == f[j].day_id && f[i].ingredient_id == f[j].ingredient_id {
                    let k1 = choose|k: int|
                        0 <= k < s0.day_ingredients.len() && s0.day_ingredients[k] == f[i];
                    let k2 = choose|k: int|
                        0 <= k < s0.day_ingredients.len() && s0.day_ingredients[k] == f[j];
                    assert(k1 == k2);
                }
            }
            assert forall|i: int| 0 <= i < f.len() implies has_day(
                db@,
                (#[trigger] f[i]).day_id,
            ) && has_ingredient(db@, f[i].ingredient_id) by {
                let k = choose|k: int|
                    0 <= k < s0.day_ingredients.len() && s0.day_ingredients[k] == f[i];
                assert(has_day(s0, s0.day_ingredients[k].day_id));
                assert(has_ingredient(s0, s0.day_ingredients[k].ingredient_id));
            }
        }
        Ok(before - after)
    }
}

impl ExtraItemForm {
    /// Inserts a new extra item with the next free id.
    pub fn insert(&self, db: &mut Database) -> (r: Result<ExtraItem, DbError>)
        requires
            inv(old(db)@),
        ensures
            inv(final(db)@),
            match r {
                Ok(x) => {
                    &&& old(db)@.next_extra_item_id < i32::MAX
                    &&& x.id == old(db)@.next_extra_item_id
                    &&& x.name == self.name
                    &&& x.amount == self.amount
                    &&& x.bought == self.bought
                    &&& final(db)@ == (StateV {
                        extra_items: old(db)@.extra_items.push(x),
                        next_extra_item_id: old(db)@.next_extra_item_id + 1,
                        ..old(db)@
                    })
                },
                Err(e) => {
                    &&& e == DbError::Full
                    &&& old(db)@.next_extra_item_id == i32::MAX
                    &&& final(db)@ == old(db)@
                },
            },
    {
        let ghost s0 = db@;
        if db.next_extra_item_id == i32::MAX {
            return Err(DbError::Full);
        }
        let x = ExtraItem {
            id: db.next_extra_item_id,
            name: self.name.clone(),
            amount: self.amount,
            bought: self.bought,
        };
        db.next_extra_item_id = db.next_extra_item_id + 1;
        db.extra_items.push(x.clone());
        proof {
            assert(db@ =~= (StateV {
                extra_items: s0.extra_items.push(x),
                next_extra_item_id: s0.next_extra_item_id + 1,
                ..s0
            }));
        }
        Ok(x)
    }
}

impl ExtraItem {
    /// Removes the extra item with id `id`, if any; the number of rows
    /// removed is returned.
    pub fn delete(db: &mut Database, id: i32) -> (r: Result<usize, DbError>)
        requires
            inv(old(db)@),
        ensures
            inv(final(db)@),
            final(db)@ == (StateV {
                extra_items: old(db)@.extra_items.filter(|x: ExtraItem| x.id != id),
                ..old(db)@
            }),
            r matches Ok(count) && count == old(db)@.extra_items.len() - final(db)@.extra_items.len(),
    {
        let ghost s0 = db@;
        let ghost pred = |x: ExtraItem| x.id != id;
        let before: usize = db.extra_items.len();
        let mut out: Vec<ExtraItem> = Vec::new();
        let mut i: usize = 0;
        while i < db.extra_items.len()
            invariant
                db@ == s0,
                i <= s0.extra_items.len(),
                out@ == s0.extra_items.take(i as int).filter(pred),
                pred == (|x: ExtraItem| x.id != id),
            decreases s0.extra_items.len() - i,
        {
            proof {
                lemma_filter_take_push(s0.extra_items, pred, i as int);
            }
            if db.extra_items[i].id != id {
                out.push(db.extra_items[i].clone());
            }
            i = i + 1;
        }
        proof {
            assert(s0.extra_items.take(s0.extra_items.len() as int) =~= s0.extra_items);
            s0.extra_items.lemma_filter_len(pred);
        }
        db.extra_items = out;
        let after: usize = db.extra_items.len();
        proof {
            assert(db@ =~= (StateV {
                extra_items: s0.extra_items.filter(pred),
                ..s0
            }));
            lemma_filter_distinct(s0.extra_items, pred);
            let f = db@.extra_items;
            assert forall|i: int, j: int| 0 <= i < j < f.len() implies (#[trigger] f[i]).id != (
            #[trigger] f[j]).id by {
                if f[i].id == f[j].id {
                    let k1 = choose|k: int| 0 <= k < s0.extra_items.len() && s0.extra_items[k]
                        == f[i];
                    let k2 = choose|k: int| 0 <= k < s0.extra_items.len() && s0.extra_items[k]
                        == f[j];
                    assert(k1 == k2);
                }
            }
            assert forall|i: int| 0 <= i < f.len() implies 1 <= (#[trigger] f[i]).id
                < db@.next_extra_item_id by {
                let k = choose|k: int| 0 <= k < s0.extra_items.len() && s0.extra_items[k] == f[i];
            }
        }
        Ok(before - after)
    }

    /// Every extra item, in insertion order.
    pub fn get_all(db: &Database) -> (r: Result<Vec<ExtraItem>, DbError>)
        ensures
            r matches Ok(v) && v@ == db@.extra_items,
    {
        let mut out: Vec<ExtraItem> = Vec::new();
        let mut i: usize = 0;
        while i < db.extra_items.len()
            invariant
                i <= db@.extra_items.len(),
                out@ == db@.extra_items.take(i as int),
            decreases db@.extra_items.len() - i,
        {
            out.push(db.extra_items[i].clone());
            proof {
                assert(out@ =~= db@.extra_items.take(i as int + 1));
            }
            i = i + 1;
        }
        proof {
            assert(db@.extra_items.take(db@.extra_items.len() as int) =~= db@.extra_items);
        }
        Ok(out)
    }

    /// The extra items still to buy, in insertion order.
    pub fn get_all_not_bought(db: &Database) -> (r: Result<Vec<ExtraItem>, DbError>)
        ensures
            r matches Ok(v) && v@ == db@.extra_items.filter(|x: ExtraItem| !x.bought),
    {
        let ghost pred = |x: ExtraItem| !x.bought;
        let mut out: Vec<ExtraItem> = Vec::new();
        let mut i: usize = 0;
        while i < db.extra_items.len()
            invariant
                i <= db@.extra_items.len(),
                out@ == db@.extra_items.take(i as int).filter(pred),
                pred == (|x: ExtraItem| !x.bought),
            decreases db@.extra_items.len() - i,
        {
            proof {
                lemma_filter_take_push(db@.extra_items, pred, i as int);
            }
            if !db.extra_items[i].bought {
                out.push(db.extra_items[i].clone());
            }
            i = i + 1;
        }
        proof {
            assert(db@.extra_items.take(db@.extra_items.len() as int) =~= db@.extra_items);
        }
        Ok(out)
    }

    /// The extra item with id `id`.
    pub fn get(db: &Database, id: i32) -> (r: Result<ExtraItem, DbError>)
        requires
            inv(db@),
        ensures
            match r {
                Ok(x) => has_extra_item(db@, id) && x.id == id && db@.extra_items.contains(x),
                Err(e) => e == DbError::NotFound && !has_extra_item(db@, id),
            },
    {
        match db.find_extra_item_idx(id) {
            Some(k) => {
                let x = db.extra_items[k].clone();
                proof {
                    assert(db@.extra_items.contains(db@.extra_items[k as int]));
                }
                Ok(x)
            },
            None => Err(DbError::NotFound),
        }
    }

    /// Overwrites the extra item with this item's id.
    pub fn update(&self, db: &mut Database) -> (r: Result<ExtraItem, DbError>)
        requires
            inv(old(db)@),
        ensures
            inv(final(db)@),
            match r {
                Ok(x) => {
                    &&& x == *self
                    &&& exists|k: int|
                        0 <= k < old(db)@.extra_items.len() && (
                        #[trigger] old(db)@.extra_items[k]).id == self.id && final(db)@ == (StateV {
                            extra_items: old(db)@.extra_items.update(k, *self),
                            ..old(db)@
                        })
                },
                Err(e) => {
                    &&& e == DbError::NotFound
                    &&& !has_extra_item(old(db)@, self.id)
                    &&& final(db)@ == old(db)@
                },
            },
    {
        let ghost s0 = db@;
        match db.find_extra_item_idx(self.id) {
            Some(k) => {
                db.extra_items.remove(k);
                db.extra_items.insert(k, self.clone());
                proof {
                    assert(db@.extra_items =~= s0.extra_items.update(k as int, *self));
                    assert(db@ =~= (StateV {
                        extra_items: s0.extra_items.update(k as int, *self),
                        ..s0
                    }));
                }
                Ok(self.clone())
            },
            None => Err(DbError::NotFound),
        }
    }
}

impl IngredientForm {
    /// Inserts a new ingredient of meal `self.meal_id`, which must exist.
    pub fn insert(&self, db: &mut Database) -> (r: Result<Ingredient, DbError>)
        requires
            inv(old(db)@),
        ensures
            inv(final(db)@),
            match r {
                Ok(g) => {
                    &&& has_meal(old(db)@, self.meal_id)
                    &&& old(db)@.next_ingredient_id < i32::MAX
                    &&& g.id == old(db)@.next_ingredient_id
                    &&& g.name == self.name
                    &&& g.amount == self.amount
                    &&& g.meal_id == self.meal_id
                    &&& final(db)@ == (StateV {
                        ingredients: old(db)@.ingredients.push(g),
                        next_ingredient_id: old(db)@.next_ingredient_id + 1,
                        ..old(db)@
                    })
                },
                Err(e) => {
                    &&& final(db)@ == old(db)@
                    &&& (e == DbError::ForeignKeyViolation || e == DbError::Full)
                    &&& (e == DbError::ForeignKeyViolation <==> !has_meal(old(db)@, self.meal_id))
                    &&& (e == DbError::Full <==> has_meal(old(db)@, self.meal_id) && old(db)@.next_ingredient_id == i32::MAX)
                },
            },
    {
        let ghost s0 = db@;
        if db.find_meal_idx(self.meal_id).is_none() {
            return Err(DbError::ForeignKeyViolation);
        }
        if db.next_ingredient_id == i32::MAX {
            return Err(DbError::Full);
        }
        let g = Ingredient {
            id: db.next_ingredient_id,
            name: self.name.clone(),
            amount: self.amount,
            meal_id: self.meal_id,
        };
        db.next_ingredient_id = db.next_ingredient_id + 1;
        db.ingredients.push(g.clone());
        proof {
            assert(db@ =~= (StateV {
                ingredients: s0.ingredients.push(g),
                next_ingredient_id: s0.next_ingredient_id + 1,
                ..s0
            }));
            assert forall|x: i32| seq_has_ingredient(s0.ingredients, x) implies seq_has_ingredient(
                db@.ingredients,
                x,
            ) by {
                let w = choose|w: int|
                    0 <= w < s0.ingredients.len() && (#[trigger] s0.ingredients[w]).id == x;
                assert(db@.ingredients[w].id == x);
            }
        }
        Ok(g)
    }
}

impl Ingredient {
    /// Removes every ingredient of meal `meal_id`, and with each of them
    /// every shopping-state row that references it; the number of
    /// ingredients removed is returned.
    pub fn delete_for_meal(db: &mut Database, meal_id: i32) -> (r: Result<usize, DbError>)
        requires
            inv(old(db)@),
        ensures
            inv(final(db)@),
            final(db)@ == (StateV {
                ingredients: ings_without_meal(old(db)@, meal_id),
                day_ingredients: dis_without_meal_ings(old(db)@, meal_id),
                ..old(db)@
            }),
            r matches Ok(count) && count == old(db)@.ingredients.len() - final(db)@.ingredients.len(),
    {
        let ghost s0 = db@;
        let ghost dpred = |di: DayIngredient|
            !seq_ing_belongs(s0.ingredients, di.ingredient_id, meal_id);
        let ghost gpred = |g: Ingredient| g.meal_id != meal_id;
        let before: usize = db.ingredients.len();

        let mut keep_dis: Vec<DayIngredient> = Vec::new();
        let mut i: usize = 0;
        while i < db.day_ingredients.len()
            invariant
                db@ == s0,
                inv(s0),
                i <= s0.day_ingredients.len(),
                keep_dis@ == s0.day_ingredients.take(i as int).filter(dpred),
                dpred == (|di: DayIngredient|
                    !seq_ing_belongs(s0.ingredients, di.ingredient_id, meal_id)),
            decreases s0.day_ingredients.len() - i,
        {
            proof {
                lemma_filter_take_push(s0.day_ingredients, dpred, i as int);
            }
            let di = db.day_ingredients[i];
            let idx = db.find_ingredient_idx(di.ingredient_id);
            let belongs: bool = match idx {
                Some(k) => db.ingredients[k].meal_id == meal_id,
                None => false,
            };
            proof {
                match idx {
                    Some(k) => {
                        if s0.ingredients[k as int].meal_id == meal_id {
                            assert(seq_ing_belongs(s0.ingredients, di.ingredient_id, meal_id));
                        } else if seq_ing_belongs(s0.ingredients, di.ingredient_id, meal_id) {
                            let w = choose|w: int|
                                0 <= w < s0.ingredients.len() && (#[trigger] s0.ingredients[w]).id
                                    == di.ingredient_id && s0.ingredients[w].meal_id == meal_id;
                            assert(s0.ingredients[w].id == s0.ingredients[k as int].id);
                            assert(false);
                        }
                    },
                    None => {
                        if seq_ing_belongs(s0.ingredients, di.ingredient_id, meal_id) {
                            let w = choose|w: int|
                                0 <= w < s0.ingredients.len() && (#[trigger] s0.ingredients[w]).id
                                    == di.ingredient_id && s0.ingredients[w].meal_id == meal_id;
                            assert(seq_has_ingredient(s0.ingredients, di.ingredient_id));
                            assert(false);
                        }
                    },
                }
                assert(belongs == !dpred(di));
            }
            if !belongs {
                keep_dis.push(di);
            }
            i = i + 1;
        }
        proof {
            assert(s0.day_ingredients.take(s0.day_ingredients.len() as int)
                =~= s0.day_ingredients);
        }

        let mut keep_ings: Vec<Ingredient> = Vec::new();
        let mut j: usize = 0;
        while j < db.ingredients.len()
            invariant
                db@ == s0,
                j <= s0.ingredients.len(),
                keep_ings@ == s0.ingredients.take(j as int).filter(gpred),
                gpred == (|g: Ingredient| g.meal_id != meal_id),
            decreases s0.ingredients.len() - j,
        {
            proof {
                lemma_filter_take_push(s0.ingredients, gpred, j as int);
            }
            if db.ingredients[j].meal_id != meal_id {
                keep_ings.push(db.ingredients[j].clone());
            }
            j = j + 1;
        }
        proof {
            assert(s0.ingredients.take(s0.ingredients.len() as int) =~= s0.ingredients);
            s0.ingredients.lemma_filter_len(gpred);
        }

        db.day_ingredients = keep_dis;
        db.ingredients = keep_ings;
        let after: usize = db.ingredients.len();
        proof {
            assert(db@ =~= (StateV {
                ingredients: ings_without_meal(s0, meal_id),
                day_ingredients: dis_without_meal_ings(s0, meal_id),
                ..s0
            }));
            broadcast use vstd::seq_lib::group_filter_ensures;

            lemma_filter_distinct(s0.ingredients, gpred);
            lemma_filter_distinct(s0.day_ingredients, dpred);
            let fg = db@.ingredients;
            let fd = db@.day_ingredients;
            assert forall|a: int, b: int| 0 <= a < b < fg.len() implies (#[trigger] fg[a]).id != (
            #[trigger] fg[b]).id by {
                if fg[a].id == fg[b].id {
                    let k1 = choose|k: int| 0 <= k < s0.ingredients.len() && s0.ingredients[k]
                        == fg[a];
                    let k2 = choose|k: int| 0 <= k < s0.ingredients.len() && s0.ingredients[k]
                        == fg[b];
                    assert(k1 == k2);
                }
            }
            assert forall|a: int| 0 <= a < fg.len() implies 1 <= (#[trigger] fg[a]).id
                < db@.next_ingredient_id && seq_has_meal(db@.meals, fg[a].meal_id) by {
                let k = choose|k: int| 0 <= k < s0.ingredients.len() && s0.ingredients[k] == fg[a];
                assert(seq_has_meal(s0.meals, s0.ingredients[k].meal_id));
            }
            assert forall|a: int, b: int| 0 <= a < b < fd.len() implies !((#[trigger] fd[a]).day_id
                == (#[trigger] fd[b]).day_id && fd[a].ingredient_id == fd[b].ingredient_id) by {
                if fd[a].day_id == fd[b].day_id && fd[a].ingredient_id == fd[b].ingredient_id {
                    let k1 = choose|k: int|
                        0 <= k < s0.day_ingredients.len() && s0.day_ingredients[k] == fd[a];
                    let k2 = choose|k: int|
                        0 <= k < s0.day_ingredients.len() && s0.day_ingredients[k] == fd[b];
                    assert(k1 == k2);
                }
            }
            assert forall|a: int| 0 <= a < fd.len() implies seq_has_day(
                db@.days,
                (#[trigger] fd[a]).day_id,
            ) && seq_has_ingredient(db@.ingredients, fd[a].ingredient_id) by {
                let k = choose|k: int|
                    0 <= k < s0.day_ingredients.len() && s0.day_ingredients[k] == fd[a];
                assert(seq_has_day(s0.days, s0.day_ingredients[k].day_id));
                assert(seq_has_ingredient(s0.ingredients, fd[a].ingredient_id));
                let w = choose|w: int|
                    0 <= w < s0.ingredients.len() && (#[trigger] s0.ingredients[w]).id
                        == fd[a].ingredient_id;
                assert(!seq_ing_belongs(s0.ingredients, fd[a].ingredient_id, meal_id));
                assert(s0.ingredients[w].meal_id != meal_id);
                assert(gpred(s0.ingredients[w]));
                assert(fg.contains(s0.ingredients[w]));
                let v = choose|v: int| 0 <= v < fg.len() && fg[v] == s0.ingredients[w];
                assert(fg[v].id == fd[a].ingredient_id);
            }
        }
        Ok(before - after)
    }

    /// Every ingredient, in insertion order.
    pub fn get_all(db: &Database) -> (r: Result<Vec<Ingredient>, DbError>)
        ensures
            r matches Ok(v) && v@ == db@.ingredients,
    {
        let mut out: Vec<Ingredient> = Vec::new();
        let mut i: usize = 0;
        while i < db.ingredients.len()
            invariant
                i <= db@.ingredients.len(),
                out@ == db@.ingredients.take(i as int),
            decreases db@.ingredients.len() - i,
        {
            out.push(db.ingredients[i].clone());
            proof {
                assert(out@ =~= db@.ingredients.take(i as int + 1));
            }
            i = i + 1;
        }
        proof {
            assert(db@.ingredients.take(db@.ingredients.len() as int) =~= db@.ingredients);
        }
        Ok(out)
    }

    /// The ingredient with id `id`.
    pub fn get(db: &Database, id: i32) -> (r: Result<Ingredient, DbError>)
        requires
            inv(db@),
        ensures
            match r {
                Ok(g) => has_ingredient(db@, id) && g.id == id && db@.ingredients.contains(g),
                Err(e) => e == DbError::NotFound && !has_ingredient(db@, id),
            },
    {
        match db.find_ingredient_idx(id) {
            Some(k) => {
                let g = db.ingredients[k].clone();
                proof {
                    assert(db@.ingredients.contains(db@.ingredients[k as int]));
                }
                Ok(g)
            },
            None => Err(DbError::NotFound),
        }
    }

    /// The ingredients of meal `meal_id`, in insertion order.
    pub fn get_for_meal(db: &Database, meal_id: i32) -> (r: Result<Vec<Ingredient>, DbError>)
        ensures
            r matches Ok(v) && v@ == ings_of_meal(db@, meal_id),
    {
        let ghost pred = |g: Ingredient| g.meal_id == meal_id;
        let mut out: Vec<Ingredient> = Vec::new();
        let mut i: usize = 0;
        while i < db.ingredients.len()
            invariant
                i <= db@.ingredients.len(),
                out@ == db@.ingredients.take(i as int).filter(pred),
                pred == (|g: Ingredient| g.meal_id == meal_id),
            decreases db@.ingredients.len() - i,
        {
            proof {
                lemma_filter_take_push(db@.ingredients, pred, i as int);
            }
            if db.ingredients[i].meal_id == meal_id {
                out.push(db.ingredients[i].clone());
            }
            i = i + 1;
        }
        proof {
            assert(db@.ingredients.take(db@.ingredients.len() as int) =~= db@.ingredients);
        }
        Ok(out)
    }
}

impl MealForm {
    /// Inserts a new meal with the next free id.
    pub fn insert(&self, db: &mut Database) -> (r: Result<Meal, DbError>)
        requires
            inv(old(db)@),
        ensures
            inv(final(db)@),
            match r {
                Ok(m) => {
                    &&& old(db)@.next_meal_id < i32::MAX
                    &&& m.id == old(db)@.next_meal_id
                    &&& m.name == self.name
                    &&& m.image == self.image
                    &&& m.recipie_url == self.recipie_url
                    &&& final(db)@ == (StateV {
                        meals: old(db)@.meals.push(m),
                        next_meal_id: old(db)@.next_meal_id + 1,
                        ..old(db)@
                    })
                },
                Err(e) => {
                    &&& e == DbError::Full
                    &&& old(db)@.next_meal_id == i32::MAX
                    &&& final(db)@ == old(db)@
                },
            },
    {
        let ghost s0 = db@;
        if db.next_meal_id == i32::MAX {
            return Err(DbError::Full);
        }
        let m = Meal {
            id: db.next_meal_id,
            name: self.name.clone(),
            image: self.image.clone(),
            recipie_url: match &self.recipie_url {
                Some(u) => Some(u.clone()),
                None => None,
            },
        };
        db.next_meal_id = db.next_meal_id + 1;
        db.meals.push(m.clone());
        proof {
            assert(db@ =~= (StateV {
                meals: s0.meals.push(m),
                next_meal_id: s0.next_meal_id + 1,
                ..s0
            }));
            assert forall|x: i32| seq_has_meal(s0.meals, x) implies seq_has_meal(
                db@.meals,
                x,
            ) by {
                let w = choose|w: int| 0 <= w < s0.meals.len() && (#[trigger] s0.meals[w]).id == x;
                assert(db@.meals[w].id == x);
            }
        }
        Ok(m)
    }
}

impl Meal {
    /// Every meal, in insertion order.
    pub fn get_all(db: &Database) -> (r: Result<Vec<Meal>, DbError>)
        ensures
            r matches Ok(v) && v@ == db@.meals,
    {
        let mut out: Vec<Meal> = Vec::new();
        let mut i: usize = 0;
        while i < db.meals.len()
            invariant
                i <= db@.meals.len(),
                out@ == db@.meals.take(i as int),
            decreases db@.meals.len() - i,
        {
            out.push(db.meals[i].clone());
            proof {
                assert(out@ =~= db@.meals.take(i as int + 1));
            }
            i = i + 1;
        }
        proof {
            assert(db@.meals.take(db@.meals.len() as int) =~= db@.meals);
        }
        Ok(out)
    }

    /// The meal with id `id`.
    pub fn get(db: &Database, id: i32) -> (r: Result<Meal, DbError>)
        requires
            inv(db@),
        ensures
            match r {
                Ok(m) => has_meal(db@, id) && m.id == id && db@.meals.contains(m),
                Err(e) => e == DbError::NotFound && !has_meal(db@, id),
            },
    {
        match db.find_meal_idx(id) {
            Some(k) => {
                let m = db.meals[k].clone();
                proof {
                    assert(db@.meals.contains(db@.meals[k as int]));
                }
                Ok(m)
            },
            None => Err(DbError::NotFound),
        }
    }

    /// Removes the meal with id `id`, together with its ingredients and
    /// their shopping-state rows; refused while any day still has the
    /// meal assigned.
    pub fn delete(db: &mut Database, id: i32) -> (r: Result<usize, DbError>)
        requires
            inv(old(db)@),
        ensures
            inv(final(db)@),
            match r {
                Ok(count) => {
                    &&& !meal_in_use(old(db)@, id)
                    &&& count == if has_meal(old(db)@, id) {
                        1int
                    } else {
                        0int
                    }
                    &&& final(db)@ == (StateV {
                        meals: meals_without(old(db)@, id),
                        ingredients: ings_without_meal(old(db)@, id),
                        day_ingredients: dis_without_meal_ings(old(db)@, id),
                        ..old(db)@
                    })
                },
                Err(e) => {
                    &&& e == DbError::ForeignKeyViolation
                    &&& meal_in_use(old(db)@, id)
                    &&& final(db)@ == old(db)@
                },
            },
    {
        let ghost s0 = db@;
        let ghost mpred = |m: Meal| m.id != id;
        let mut i: usize = 0;
        while i < db.days.len()
            invariant
                db@ == s0,
                s0 == old(db)@,
                inv(s0),
                i <= s0.days.len(),
                forall|j: int| 0 <= j < i ==> (#[trigger] s0.days[j]).meal_id != Some(id),
            decreases s0.days.len() - i,
        {
            let referenced: bool = match db.days[i].meal_id {
                Some(mid) => mid == id,
                None => false,
            };
            if referenced {
                return Err(DbError::ForeignKeyViolation);
            }
            i = i + 1;
        }
        let existed: bool = db.find_meal_idx(id).is_some();
        let _ = Ingredient::delete_for_meal(db, id);
        let ghost s1 = db@;
        let mut keep_meals: Vec<Meal> = Vec::new();
        let mut j: usize = 0;
        while j < db.meals.len()
            invariant
                db@ == s1,
                s1.meals == s0.meals,
                j <= s0.meals.len(),
                keep_meals@ == s0.meals.take(j as int).filter(mpred),
                mpred == (|m: Meal| m.id != id),
            decreases s0.meals.len() - j,
        {
            proof {
                lemma_filter_take_push(s0.meals, mpred, j as int);
            }
            if db.meals[j].id != id {
                keep_meals.push(db.meals[j].clone());
            }
            j = j + 1;
        }
        proof {
            assert(s0.meals.take(s0.meals.len() as int) =~= s0.meals);
        }
        db.meals = keep_meals;
        proof {
            assert(db@ =~= (StateV {
                meals: meals_without(s0, id),
                ingredients: ings_without_meal(s0, id),
                day_ingredients: dis_without_meal_ings(s0, id),
                ..s0
            }));
            broadcast use vstd::seq_lib::group_filter_ensures;

            lemma_filter_distinct(s0.meals, mpred);
            let fm = db@.meals;
            assert forall|a: int, b: int| 0 <= a < b < fm.len() implies (#[trigger] fm[a]).id != (
            #[trigger] fm[b]).id by {
                if fm[a].id == fm[b].id {
                    let k1 = choose|k: int| 0 <= k < s0.meals.len() && s0.meals[k] == fm[a];
                    let k2 = choose|k: int| 0 <= k < s0.meals.len() && s0.meals[k] == fm[b];
                    assert(k1 == k2);
                }
            }
            assert forall|a: int| 0 <= a < fm.len() implies 1 <= (#[trigger] fm[a]).id
                < db@.next_meal_id by {
                let k = choose|k: int| 0 <= k < s0.meals.len() && s0.meals[k] == fm[a];
            }
            assert forall|a: int|
                0 <= a < db@.days.len() implies ((#[trigger] db@.days[a]).meal_id matches Some(mid)
                ==> seq_has_meal(db@.meals, mid)) by {
                match db@.days[a].meal_id {
                    Some(mid) => {
                        assert(s0.days[a].meal_id == Some(mid));
                        assert(mid != id);
                        assert(seq_has_meal(s0.meals, mid));
                        let w = choose|w: int|
                            0 <= w < s0.meals.len() && (#[trigger] s0.meals[w]).id == mid;
                        assert(mpred(s0.meals[w]));
                        assert(fm.contains(s0.meals[w]));
                        let v = choose|v: int| 0 <= v < fm.len() && fm[v] == s0.meals[w];
                        assert(fm[v].id == mid);
                    },
                    None => {},
                }
            }
            assert forall|a: int| 0 <= a < db@.ingredients.len() implies seq_has_meal(
                db@.meals,
                (#[trigger] db@.ingredients[a]).meal_id,
            ) by {
                assert(ingredients_ok(s1.ingredients, s1.meals, s1.next_ingredient_id));
                assert(s1.ingredients[a].meal_id != id);
                let mid = db@.ingredients[a].meal_id;
                assert(seq_has_meal(s0.meals, mid));
                let w = choose|w: int| 0 <= w < s0.meals.len() && (#[trigger] s0.meals[w]).id
                    == mid;
                assert(mpred(s0.meals[w]));
                assert(fm.contains(s0.meals[w]));
                let v = choose|v: int| 0 <= v < fm.len() && fm[v] == s0.meals[w];
                assert(fm[v].id == mid);
            }
        }
        if existed {
            Ok(1)
        } else {
            Ok(0)
        }
    }

    /// Overwrites the meal with this meal's id.
    pub fn update(&self, db: &mut Database) -> (r: Result<Meal, DbError>)
        requires
            inv(old(db)@),
        ensures
            inv(final(db)@),
            match r {
                Ok(m) => {
                    &&& m == *self
                    &&& exists|k: int|
                        0 <= k < old(db)@.meals.len() && (#[trigger] old(db)@.meals[k]).id
                            == self.id && final(db)@ == (StateV {
                            meals: old(db)@.meals.update(k, *self),
                            ..old(db)@
                        })
                },
                Err(e) => {
                    &&& e == DbError::NotFound
                    &&& !has_meal(old(db)@, self.id)
                    &&& final(db)@ == old(db)@
                },
            },
    {
        let ghost s0 = db@;
        match db.find_meal_idx(self.id) {
            Some(k) => {
                db.meals.remove(k);
                db.meals.insert(k, self.clone());
                proof {
                    assert(db@.meals =~= s0.meals.update(k as int, *self));
                    assert(db@ =~= (StateV { meals: s0.meals.update(k as int, *self), ..s0 }));
                    assert forall|x: i32| seq_has_meal(s0.meals, x) implies seq_has_meal(
                        db@.meals,
                        x,
                    ) by {
                        let w = choose|w: int| 0 <= w < s0.meals.len() && (#[trigger] s0.meals[w]).id
                            == x;
                        assert(db@.meals[w].id == x);
                    }
                }
                Ok(self.clone())
            },
            None => Err(DbError::NotFound),
        }
    }
}

impl DayForm {
    /// Inserts a day for this form's date or, when that date already has
    /// a row, overwrites its meal, week and year in place, keeping the
    /// row's id and attendance flags. The single write path for meal
    /// assignment.
    pub fn upsert(&self, db: &mut Database) -> (r: Result<Day, DbError>)
        requires
            inv(old(db)@),
        ensures
            inv(final(db)@),
            match r {
                Ok(d) => {
                    &&& d.date == self.date
                    &&& d.meal_id == self.meal_id
                    &&& d.week == self.week
                    &&& d.year == self.year
                    &&& (self.meal_id matches Some(mid) ==> has_meal(old(db)@, mid))
                    &&& if has_day_date(old(db)@, self.date) {
                        exists|k: int|
                            0 <= k < old(db)@.days.len() && (#[trigger] old(db)@.days[k]).date
                                == self.date && d.id == old(db)@.days[k].id && d.anders_attend
                                == old(db)@.days[k].anders_attend && d.ac_attend
                                == old(db)@.days[k].ac_attend && d.andreas_attend
                                == old(db)@.days[k].andreas_attend && final(db)@ == (StateV {
                                days: old(db)@.days.update(k, d),
                                ..old(db)@
                            })
                    } else {
                        &&& d.id == old(db)@.next_day_id
                        &&& !d.anders_attend
                        &&& !d.ac_attend
                        &&& !d.andreas_attend
                        &&& final(db)@ == (StateV {
                            days: old(db)@.days.push(d),
                            next_day_id: old(db)@.next_day_id + 1,
                            ..old(db)@
                        })
                    }
                },
                Err(e) => {
                    &&& final(db)@ == old(db)@
                    &&& (e == DbError::ForeignKeyViolation || e == DbError::Full)
                    &&& (e == DbError::ForeignKeyViolation <==> (self.meal_id matches Some(mid)
                        && !has_meal(old(db)@, mid)))
                    &&& (e == DbError::Full <==> (self.meal_id matches Some(mid) ==> has_meal(
                        old(db)@,
                        mid,
                    )) && !has_day_date(old(db)@, self.date) && old(db)@.next_day_id == i32::MAX)
                },
            },
    {
        let ghost s0 = db@;
        match self.meal_id {
            Some(mid) => {
                if db.find_meal_idx(mid).is_none() {
                    return Err(DbError::ForeignKeyViolation);
                }
            },
            None => {},
        }
        match db.find_day_by_date(self.date) {
            Some(k) => {
                let old_day = db.days[k];
                let d = Day {
                    id: old_day.id,
                    date: self.date,
                    meal_id: self.meal_id,
                    week: self.week,
                    year: self.year,
                    anders_attend: old_day.anders_attend,
                    ac_attend: old_day.ac_attend,
                    andreas_attend: old_day.andreas_attend,
                };
                db.days.remove(k);
                db.days.insert(k, d);
                proof {
                    assert(db@.days =~= s0.days.update(k as int, d));
                    assert(db@ =~= (StateV { days: s0.days.update(k as int, d), ..s0 }));
                    assert(forall|a: int|
                        0 <= a < db@.days.len() ==> (#[trigger] db@.days[a]).id == s0.days[a].id
                            && db@.days[a].date == s0.days[a].date);
                    assert forall|x: i32| seq_has_day(s0.days, x) implies seq_has_day(
                        db@.days,
                        x,
                    ) by {
                        let w = choose|w: int| 0 <= w < s0.days.len() && (#[trigger] s0.days[w]).id
                            == x;
                        assert(db@.days[w].id == x);
                    }
                }
                Ok(d)
            },
            None => {
                if db.next_day_id == i32::MAX {
                    return Err(DbError::Full);
                }
                let d = Day {
                    id: db.next_day_id,
                    date: self.date,
                    meal_id: self.meal_id,
                    week: self.week,
                    year: self.year,
                    anders_attend: false,
                    ac_attend: false,
                    andreas_attend: false,
                };
                db.next_day_id = db.next_day_id + 1;
                db.days.push(d);
                proof {
                    assert(db@ =~= (StateV {
                        days: s0.days.push(d),
                        next_day_id: s0.next_day_id + 1,
                        ..s0
                    }));
                    assert forall|x: i32| seq_has_day(s0.days, x) implies seq_has_day(
                        db@.days,
                        x,
                    ) by {
                        let w = choose|w: int| 0 <= w < s0.days.len() && (#[trigger] s0.days[w]).id
                            == x;
                        assert(db@.days[w].id == x);
                    }
                }
                Ok(d)
            },
        }
    }
}

impl Day {
    /// The day with id `id`.
    pub fn get(db: &Database, id: i32) -> (r: Result<Day, DbError>)
        requires
            inv(db@),
        ensures
            match r {
                Ok(d) => has_day(db@, id) && d.id == id && db@.days.contains(d),
                Err(e) => e == DbError::NotFound && !has_day(db@, id),
            },
    {
        match db.find_day_idx(id) {
            Some(k) => {
                proof {
                    assert(db@.days.contains(db@.days[k as int]));
                }
                Ok(db.days[k])
            },
            None => Err(DbError::NotFound),
        }
    }

    /// Every day, in insertion order.
    pub fn get_all(db: &Database) -> (r: Result<Vec<Day>, DbError>)
        ensures
            r matches Ok(v) && v@ == db@.days,
    {
        let mut out: Vec<Day> = Vec::new();
        let mut i: usize = 0;
        while i < db.days.len()
            invariant
                i <= db@.days.len(),
                out@ == db@.days.take(i as int),
            decreases db@.days.len() - i,
        {
            out.push(db.days[i]);
            proof {
                assert(out@ =~= db@.days.take(i as int + 1));
            }
            i = i + 1;
        }
        proof {
            assert(db@.days.take(db@.days.len() as int) =~= db@.days);
        }
        Ok(out)
    }

    /// The days assigned to meal `id`, in insertion order.
    pub fn get_for_meal(db: &Database, id: i32) -> (r: Result<Vec<Day>, DbError>)
        ensures
            r matches Ok(v) && v@ == days_of_meal(db@, id),
    {
        let ghost pred = |d: Day| d.meal_id == Some(id);
        let mut out: Vec<Day> = Vec::new();
        let mut i: usize = 0;
        while i < db.days.len()
            invariant
                i <= db@.days.len(),
                out@ == db@.days.take(i as int).filter(pred),
                pred == (|d: Day| d.meal_id == Some(id)),
            decreases db@.days.len() - i,
        {
            proof {
                lemma_filter_take_push(db@.days, pred, i as int);
            }
            let keep: bool = match db.days[i].meal_id {
                Some(mid) => mid == id,
                None => false,
            };
            if keep {
                out.push(db.days[i]);
            }
            i = i + 1;
        }
        proof {
            assert(db@.days.take(db@.days.len() as int) =~= db@.days);
        }
        Ok(out)
    }

    /// Overwrites the three attendance flags of day `id`, leaving its
    /// other fields as they are.
    pub fn update_attendance(
        db: &mut Database,
        id: i32,
        anders_attend: bool,
        ac_attend: bool,
        andreas_attend: bool,
    ) -> (r: Result<Day, DbError>)
        requires
            inv(old(db)@),
        ensures
            inv(final(db)@),
            match r {
                Ok(d) => {
                    &&& d.id == id
                    &&& d.anders_attend == anders_attend
                    &&& d.ac_attend == ac_attend
                    &&& d.andreas_attend == andreas_attend
                    &&& exists|k: int|
                        0 <= k < old(db)@.days.len() && (#[trigger] old(db)@.days[k]).id == id && d
                            == (Day {
                            anders_attend,
                            ac_attend,
                            andreas_attend,
                            ..old(db)@.days[k]
                        }) && final(db)@ == (StateV { days: old(db)@.days.update(k, d), ..old(db)@ })
                },
                Err(e) => {
                    &&& e == DbError::NotFound
                    &&& !has_day(old(db)@, id)
                    &&& final(db)@ == old(db)@
                },
            },
    {
        let ghost s0 = db@;
        match db.find_day_idx(id) {
            Some(k) => {
                let old_day = db.days[k];
                let d = Day { anders_attend, ac_attend, andreas_attend, ..old_day };
                db.days.remove(k);
                db.days.insert(k, d);
                proof {
                    assert(db@.days =~= s0.days.update(k as int, d));
                    assert(db@ =~= (StateV { days: s0.days.update(k as int, d), ..s0 }));
                    assert(forall|a: int|
                        0 <= a < db@.days.len() ==> (#[trigger] db@.days[a]).id == s0.days[a].id
                            && db@.days[a].date == s0.days[a].date && db@.days[a].meal_id
                            == s0.days[a].meal_id);
                    assert forall|x: i32| seq_has_day(s0.days, x) implies seq_has_day(
                        db@.days,
                        x,
                    ) by {
                        let w = choose|w: int| 0 <= w < s0.days.len() && (#[trigger] s0.days[w]).id
                            == x;
                        assert(db@.days[w].id == x);
                    }
                }
                Ok(d)
            },
            None => Err(DbError::NotFound),
        }
    }
}

} // verus!
