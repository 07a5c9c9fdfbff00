//! The planner's operations, one per page action: meal assignment with
//! its shopping-state cascade, meal editing with its propagation to
//! assigned days, week assembly, and the per-entity calls around them.

use vstd::prelude::*;

use crate::date::{lemma_date_view_injective, spec_date, Date};
use crate::models::{
    Day, DayForm, DayIngredient, DayWithMealAndIngredients, DbError, ExtraItem, ExtraItemForm,
    Ingredient, IngredientForm, IngredientWithBought, Meal, MealWithIngredients,
};
use crate::store::{
    days_of_meal, dis_of_day, dis_without_day, has_day, has_day_date, has_day_ingredient,
    has_extra_item, has_ingredient, has_meal, ings_of_meal, inv, lemma_filter_all,
    lemma_filter_distinct, lemma_filter_take_push, Database, StateV,
};
use crate::week::{spec_iso_week_of, spec_iso_year_of, spec_valid_week, spec_week_monday, Week};

verus! {

/// The fresh, unbought shopping-state rows that assigning a meal with
/// ingredient rows `ings` to day `day_id` creates.
pub open spec fn fresh_dis_for(day_id: i32, ings: Seq<Ingredient>) -> Seq<DayIngredient> {
    ings.map_values(
        |g: Ingredient| DayIngredient { day_id: day_id, ingredient_id: g.id, bought: false },
    )
}

/// The per-day ingredient rows a caller sees for day `d`: each
/// shopping-state row of the day joined with its ingredient.
pub open spec fn day_ingredient_view(s: StateV, d: Day) -> Seq<IngredientWithBought> {
    dis_of_day(s, d.id).map_values(
        |di: DayIngredient| IngredientWithBought {
            day_id: di.day_id,
            ingredient: ing_with_id(s, di.ingredient_id),
            bought: di.bought,
        },
    )
}

/// The ingredient row with id `id` (meaningful when one exists).
pub open spec fn ing_with_id(s: StateV, id: i32) -> Ingredient {
    choose|g: Ingredient| #[trigger] s.ingredients.contains(g) && g.id == id
}

/// What the meal side of a day projection must hold: nothing when the
/// day has no meal; otherwise the day's meal and its per-day rows.
pub open spec fn day_meal_view_ok(
    s: StateV,
    d: Day,
    meal: Option<(Meal, Vec<IngredientWithBought>)>,
) -> bool {
    match meal {
        None => d.meal_id is None,
        Some((m, iwbs)) => {
            &&& d.meal_id == Some(m.id)
            &&& s.meals.contains(m)
            &&& iwbs@ == day_ingredient_view(s, d)
        },
    }
}

/// The day row with id `id`.
pub fn get_day(db: &Database, id: i32) -> (r: Result<Day, DbError>)
    requires
        inv(db@),
    ensures
        match r {
            Ok(d) => has_day(db@, id) && d.id == id && db@.days.contains(d),
            Err(e) => e == DbError::NotFound && !has_day(db@, id),
        },
{
    Day::get(db, id)
}

/// The day rows currently assigned meal `meal_id`.
pub fn get_days_for_meal(db: &Database, meal_id: i32) -> (r: Result<Vec<Day>, DbError>)
    ensures
        r matches Ok(v) && v@ == days_of_meal(db@, meal_id),
{
    Day::get_for_meal(db, meal_id)
}

/// Overwrites one day's three attendance flags, leaving the rest of
/// the day row as it is.
pub fn update_attendance_for_day(
    db: &mut Database,
    id: i32,
    anders_attend: bool,
    ac_attend: bool,
    andreas_attend: bool,
) -> (r: Result<Day, DbError>)
    requires
        inv(old(db)@),
    ensures
        inv(final(db)@),
        match r {
            Ok(d) => {
                &&& d.id == id
                &&& d.anders_attend == anders_attend
                &&& d.ac_attend == ac_attend
                &&& d.andreas_attend == andreas_attend
                &&& exists|k: int|
                    0 <= k < old(db)@.days.len() && (#[trigger] old(db)@.days[k]).id == id && d
                        == (Day { anders_attend, ac_attend, andreas_attend, ..old(db)@.days[k] })
                        && final(db)@ == (StateV { days: old(db)@.days.update(k, d), ..old(db)@ })
            },
            Err(e) => {
                &&& e == DbError::NotFound
                &&& !has_day(old(db)@, id)
                &&& final(db)@ == old(db)@
            },
        },
{
    Day::update_attendance(db, id, anders_attend, ac_attend, andreas_attend)
}

/// Sets the bought flag of one (day, ingredient) pair: an idempotent
/// upsert that overwrites the existing row or inserts a missing one
/// with the given flag, and is refused when the day or the ingredient
/// does not exist.
pub fn udpate_day_ingredient(db: &mut Database, day_ingredient: DayIngredient) -> (r: Result<
    DayIngredient,
    DbError,
>)
    requires
        inv(old(db)@),
    ensures
        inv(final(db)@),
        match r {
            Ok(di) => {
                &&& di == day_ingredient
                &&& has_day(old(db)@, day_ingredient.day_id)
                &&& has_ingredient(old(db)@, day_ingredient.ingredient_id)
                &&& if has_day_ingredient(
                    old(db)@,
                    day_ingredient.day_id,
                    day_ingredient.ingredient_id,
                ) {
                    exists|k: int|
                        0 <= k < old(db)@.day_ingredients.len() && (
                        #[trigger] old(db)@.day_ingredients[k]).day_id == day_ingredient.day_id
                            && old(db)@.day_ingredients[k].ingredient_id
                            == day_ingredient.ingredient_id && final(db)@ == (StateV {
                            day_ingredients: old(db)@.day_ingredients.update(k, day_ingredient),
                            ..old(db)@
                        })
                } else {
                    final(db)@ == (StateV {
                        day_ingredients: old(db)@.day_ingredients.push(day_ingredient),
                        ..old(db)@
                    })
                }
            },
            Err(e) => {
                &&& e == DbError::ForeignKeyViolation
                &&& !(has_day(old(db)@, day_ingredient.day_id) && has_ingredient(
                    old(db)@,
                    day_ingredient.ingredient_id,
                ))
                &&& final(db)@ == old(db)@
            },
        },
{
    day_ingredient.update(db)
}

/// Inserts one (day, ingredient) shopping-state row.
pub fn insert_day_ingredient(db: &mut Database, day_ingredient: DayIngredient) -> (r: Result<
    DayIngredient,
    DbError,
>)
    requires
        inv(old(db)@),
    ensures
        inv(final(db)@),
        match r {
            Ok(di) => {
                &&& di == day_ingredient
                &&& has_day(old(db)@, day_ingredient.day_id)
                &&& has_ingredient(old(db)@, day_ingredient.ingredient_id)
                &&& !has_day_ingredient(
                    old(db)@,
                    day_ingredient.day_id,
                    day_ingredient.ingredient_id,
                )
                &&& final(db)@ == (StateV {
                    day_ingredients: old(db)@.day_ingredients.push(day_ingredient),
                    ..old(db)@
                })
            },
            Err(e) => {
                &&& final(db)@ == old(db)@
                &&& (e == DbError::ForeignKeyViolation || e == DbError::UniqueViolation)
                &&& (e == DbError::ForeignKeyViolation <==> !(has_day(
                    old(db)@,
                    day_ingredient.day_id,
                ) && has_ingredient(old(db)@, day_ingredient.ingredient_id)))
                &&& (e == DbError::UniqueViolation <==> has_day(old(db)@, day_ingredient.day_id)
                    && has_ingredient(old(db)@, day_ingredient.ingredient_id)
                    && has_day_ingredient(
                    old(db)@,
                    day_ingredient.day_id,
                    day_ingredient.ingredient_id,
                ))
            },
        },
{
    day_ingredient.insert(db)
}

/// Removes every shopping-state row of one day.
pub fn delete_day_ingredient_for_day(db: &mut Database, day_id: i32) -> (r: Result<usize, DbError>)
    requires
        inv(old(db)@),
    ensures
        inv(final(db)@),
        final(db)@ == (StateV {
            day_ingredients: dis_without_day(old(db)@.day_ingredients, day_id),
            ..old(db)@
        }),
        r matches Ok(count) && count == old(db)@.day_ingredients.len() - final(db)@.day_ingredients.len(),
{
    DayIngredient::delete_for_day(db, day_id)
}

/// Assigns (or reassigns) a meal to a day and regenerates that day's
/// shopping state: the day is upserted by date, every existing
/// shopping-state row of the day is dropped, and one unbought row per
/// ingredient of the new meal is inserted.
#[verifier::loop_isolation(false)]
#[verifier::rlimit(100)]
pub fn upsert_day(db: &mut Database, day_form: DayForm) -> (r: Result<
    DayWithMealAndIngredients,
    DbError,
>)
    requires
        inv(old(db)@),
    ensures
        inv(final(db)@),
        match r {
            Ok(dwi) => {
                let s0 = old(db)@;
                let s1 = final(db)@;
                let d = dwi.day;
                &&& d.date == day_form.date
                &&& d.meal_id == day_form.meal_id
                &&& d.week == day_form.week
                &&& d.year == day_form.year
                &&& (day_form.meal_id matches Some(mid) ==> has_meal(s0, mid))
                &&& if has_day_date(s0, day_form.date) {
                    exists|k: int|
                        0 <= k < s0.days.len() && (#[trigger] s0.days[k]).date == day_form.date
                            && d.id == s0.days[k].id && d.anders_attend == s0.days[k].anders_attend
                            && d.ac_attend == s0.days[k].ac_attend && d.andreas_attend
                            == s0.days[k].andreas_attend && s1.days == s0.days.update(k, d)
                            && s1.next_day_id == s0.next_day_id
                } else {
                    &&& d.id == s0.next_day_id
                    &&& !d.anders_attend
                    &&& !d.ac_attend
                    &&& !d.andreas_attend
                    &&& s1.days == s0.days.push(d)
                    &&& s1.next_day_id == s0.next_day_id + 1
                }
                &&& s1.day_ingredients == dis_without_day(s0.day_ingredients, d.id) + (
                match day_form.meal_id {
                    Some(mid) => fresh_dis_for(d.id, ings_of_meal(s0, mid)),
                    None => Seq::<DayIngredient>::empty(),
                })
                &&& s1.meals == s0.meals
                &&& s1.ingredients == s0.ingredients
                &&& s1.extra_items == s0.extra_items
                &&& s1.next_meal_id == s0.next_meal_id
                &&& s1.next_ingredient_id == s0.next_ingredient_id
                &&& s1.next_extra_item_id == s0.next_extra_item_id
                &&& match dwi.meal {
                    None => day_form.meal_id is None,
                    Some((m, iwbs)) => {
                        &&& day_form.meal_id == Some(m.id)
                        &&& s0.meals.contains(m)
                        &&& iwbs@ == fresh_iwb_for(d.id, ings_of_meal(s0, m.id))
                    },
                }
            },
            Err(e) => {
                &&& final(db)@ == old(db)@
                &&& (e == DbError::ForeignKeyViolation || e == DbError::Full)
                &&& (e == DbError::ForeignKeyViolation <==> (day_form.meal_id matches Some(mid)
                    && !has_meal(old(db)@, mid)))
                &&& (e == DbError::Full <==> (day_form.meal_id matches Some(mid) ==> has_meal(
                    old(db)@,
                    mid,
                )) && !has_day_date(old(db)@, day_form.date) && old(db)@.next_day_id == i32::MAX)
            },
        },
{
    let ghost s0 = db@;
    let day = match day_form.upsert(db) {
        Ok(d) => d,
        Err(e) => {
            return Err(e);
        },
    };
    let ghost s1 = db@;
    let _ = DayIngredient::delete_for_day(db, day.id);
    let ghost s2 = db@;
    proof {
        assert(s2.day_ingredients == dis_without_day(s0.day_ingredients, day.id)) by {
            assert(s1.day_ingredients == s0.day_ingredients);
        }
    }
    let mut meal_opt: Option<(Meal, Vec<IngredientWithBought>)> = None;
    match day_form.meal_id {
        Some(meal_id) => {
            let ings = match Ingredient::get_for_meal(db, meal_id) {
                Ok(v) => v,
                Err(_) => {
                    return Err(DbError::Inconsistent);
                },
            };
            let ghost gs = ings_of_meal(s0, meal_id);
            proof {
                lemma_filter_distinct(s0.ingredients, |g: Ingredient| g.meal_id == meal_id);
                assert(forall|a: int, b: int| 0 <= a < b < gs.len() ==> gs[a] != gs[b]);
                assert forall|a: int, b: int| 0 <= a < b < gs.len() implies (#[trigger] gs[a]).id
                    != (#[trigger] gs[b]).id by {
                    let k1 = choose|k: int| 0 <= k < s0.ingredients.len() && s0.ingredients[k]
                        == gs[a];
                    let k2 = choose|k: int| 0 <= k < s0.ingredients.len() && s0.ingredients[k]
                        == gs[b];
                    assert(k1 != k2);
                }
            }
            let mut iwbs: Vec<IngredientWithBought> = Vec::new();
            let mut i: usize = 0;
            while i < ings.len()
                invariant
                    i <= gs.len(),
                    ings@ == gs,
                    inv(db@),
                    db@ == (StateV {
                        day_ingredients: dis_without_day(s0.day_ingredients, day.id)
                            + fresh_dis_for(day.id, gs.take(i as int)),
                        ..s2
                    }),
                    iwbs@ == fresh_iwb_for(day.id, gs.take(i as int)),
                decreases gs.len() - i,
            {
                let g = ings[i].clone();
                let di = DayIngredient { day_id: day.id, ingredient_id: g.id, bought: false };
                proof {
                    assert(has_day(db@, day.id)) by {
                        if has_day_date(s0, day_form.date) {
                            let k = choose|k: int|
                                0 <= k < s0.days.len() && (#[trigger] s0.days[k]).date
                                    == day_form.date && day.id == s0.days[k].id && s1.days
                                    == s0.days.update(k, day);
                            assert(db@.days[k].id == day.id);
                        } else {
                            assert(db@.days[s0.days.len() as int].id == day.id);
                        }
                    }
                    assert(has_ingredient(db@, g.id)) by {
                        assert(s0.ingredients.contains(gs[i as int]));
                        let k = choose|k: int|
                            0 <= k < s0.ingredients.len() && s0.ingredients[k] == gs[i as int];
                        assert(db@.ingredients[k].id == g.id);
                    }
                    assert(!has_day_ingredient(db@, day.id, g.id)) by {
                        let dwd = dis_without_day(s0.day_ingredients, day.id);
                        broadcast use vstd::seq_lib::group_filter_ensures;

                        lemma_filter_distinct(
                            s0.day_ingredients,
                            |di: DayIngredient| di.day_id != day.id,
                        );
                        if has_day_ingredient(db@, day.id, g.id) {
                            let w = choose|w: int|
                                0 <= w < db@.day_ingredients.len() && (
                                #[trigger] db@.day_ingredients[w]).day_id == day.id
                                    && db@.day_ingredients[w].ingredient_id == g.id;
                            if w < dwd.len() {
                                assert(db@.day_ingredients[w] == dwd[w]);
                                assert(false);
                            } else {
                                let off = w - dwd.len();
                                assert(db@.day_ingredients[w] == fresh_dis_for(
                                    day.id,
                                    gs.take(i as int),
                                )[off]);
                                assert(gs.take(i as int)[off].id == gs[i as int].id);
                                assert(false);
                            }
                        }
                    }
                }
                let inserted = match di.insert(db) {
                    Ok(x) => x,
                    Err(_) => {
                        proof {
                            assert(false);
                        }
                        return Err(DbError::Inconsistent);
                    },
                };
                iwbs.push(IngredientWithBought { day_id: day.id, ingredient: g, bought: false });
                proof {
                    assert(gs.take(i as int).push(gs[i as int]) =~= gs.take(i as int + 1));
                    assert(fresh_dis_for(day.id, gs.take(i as int)).push(di) =~= fresh_dis_for(
                        day.id,
                        gs.take(i as int + 1),
                    ));
                    assert(db@ =~= (StateV {
                        day_ingredients: dis_without_day(s0.day_ingredients, day.id)
                            + fresh_dis_for(day.id, gs.take(i as int + 1)),
                        ..s2
                    }));
                    assert(iwbs@ =~= fresh_iwb_for(day.id, gs.take(i as int + 1)));
                }
                i = i + 1;
            }
            proof {
                assert(gs.take(gs.len() as int) =~= gs);
            }
            let meal = match Meal::get(db, meal_id) {
                Ok(m) => m,
                Err(_) => {
                    proof {
                        assert(false);
                    }
                    return Err(DbError::Inconsistent);
                },
            };
            meal_opt = Some((meal, iwbs));
        },
        None => {
            proof {
                assert(db@.day_ingredients =~= dis_without_day(s0.day_ingredients, day.id)
                    + Seq::<DayIngredient>::empty());
            }
        },
    }
    Ok(DayWithMealAndIngredients { day, meal: meal_opt })
}

/// The unbought per-day rows that a caller gets back right after
/// assigning a meal with ingredient rows `ings` to day `day_id`.
pub open spec fn fresh_iwb_for(day_id: i32, ings: Seq<Ingredient>) -> Seq<IngredientWithBought> {
    ings.map_values(
        |g: Ingredient| IngredientWithBought { day_id: day_id, ingredient: g, bought: false },
    )
}

/// The ingredient rows that submitting `forms` for meal `meal_id`
/// creates, with ids counted from `next_id`.
pub open spec fn new_ings_spec(next_id: int, forms: Seq<IngredientForm>, meal_id: i32) -> Seq<
    Ingredient,
> {
    Seq::new(
        forms.len(),
        |i: int| Ingredient {
            id: (next_id + i) as i32,
            name: forms[i].name,
            amount: forms[i].amount,
            meal_id: meal_id,
        },
    )
}

/// The unbought shopping-state rows for ingredient `g_id` on each of
/// `days`.
pub open spec fn dis_for_days(g_id: i32, days: Seq<Day>) -> Seq<DayIngredient> {
    days.map_values(
        |d: Day| DayIngredient { day_id: d.id, ingredient_id: g_id, bought: false },
    )
}

/// The unbought shopping-state rows that editing a meal inserts: for
/// each new ingredient in turn, one row per day assigned to the meal.
pub open spec fn cross_dis(ings: Seq<Ingredient>, days: Seq<Day>) -> Seq<DayIngredient>
    decreases ings.len(),
{
    if ings.len() == 0 {
        Seq::<DayIngredient>::empty()
    } else {
        cross_dis(ings.drop_last(), days) + dis_for_days(ings.last().id, days)
    }
}

/// Cross-product rows only reference the listed ingredients' ids.
proof fn lemma_cross_dis_ids(ings: Seq<Ingredient>, days: Seq<Day>, lo: int, hi: int)
    requires
        forall|a: int| 0 <= a < ings.len() ==> lo <= (#[trigger] ings[a]).id < hi,
    ensures
        forall|w: int|
            0 <= w < cross_dis(ings, days).len() ==> lo <= (#[trigger] cross_dis(ings, days)[w]).ingredient_id < hi,
    decreases ings.len(),
{
    if ings.len() > 0 {
        lemma_cross_dis_ids(ings.drop_last(), days, lo, hi);
        let c = cross_dis(ings, days);
        let cd = cross_dis(ings.drop_last(), days);
        assert forall|w: int| 0 <= w < c.len() implies lo <= (#[trigger] c[w]).ingredient_id
            < hi by {
            if w < cd.len() {
                assert(c[w] == cd[w]);
            } else {
                assert(c[w] == dis_for_days(ings.last().id, days)[w - cd.len()]);
                assert(lo <= ings[ings.len() - 1].id < hi);
            }
        }
    }
}

/// Inserts one ingredient row for its form's meal.
pub fn insert_ingredient(db: &mut Database, ingredient_form: IngredientForm) -> (r: Result<
    Ingredient,
    DbError,
>)
    requires
        inv(old(db)@),
    ensures
        inv(final(db)@),
        match r {
            Ok(g) => {
                &&& has_meal(old(db)@, ingredient_form.meal_id)
                &&& old(db)@.next_ingredient_id < i32::MAX
                &&& g.id == old(db)@.next_ingredient_id
                &&& g.name == ingredient_form.name
                &&& g.amount == ingredient_form.amount
                &&& g.meal_id == ingredient_form.meal_id
                &&& final(db)@ == (StateV {
                    ingredients: old(db)@.ingredients.push(g),
                    next_ingredient_id: old(db)@.next_ingredient_id + 1,
                    ..old(db)@
                })
            },
            Err(e) => {
                &&& final(db)@ == old(db)@
                &&& (e == DbError::ForeignKeyViolation || e == DbError::Full)
                &&& (e == DbError::ForeignKeyViolation <==> !has_meal(
                    old(db)@,
                    ingredient_form.meal_id,
                ))
                &&& (e == DbError::Full <==> has_meal(old(db)@, ingredient_form.meal_id) && old(
                    db,
                )@.next_ingredient_id == i32::MAX)
            },
        },
{
    ingredient_form.insert(db)
}

/// Removes every ingredient of one meal, and with each of them every
/// shopping-state row that references it.
pub fn delete_ingredients(db: &mut Database, meal_id: i32) -> (r: Result<usize, DbError>)
    requires
        inv(old(db)@),
    ensures
        inv(final(db)@),
        final(db)@ == (StateV {
            ingredients: crate::store::ings_without_meal(old(db)@, meal_id),
            day_ingredients: crate::store::dis_without_meal_ings(old(db)@, meal_id),
            ..old(db)@
        }),
        r matches Ok(count) && count == old(db)@.ingredients.len() - final(db)@.ingredients.len(),
{
    Ingredient::delete_for_meal(db, meal_id)
}

/// Every ingredient row.
pub fn get_ingredients(db: &Database) -> (r: Result<Vec<Ingredient>, DbError>)
    ensures
        r matches Ok(v) && v@ == db@.ingredients,
{
    Ingredient::get_all(db)
}

/// The ingredient rows of one meal.
pub fn get_ingredients_for_meal(db: &Database, meal_id: i32) -> (r: Result<Vec<Ingredient>, DbError>)
    ensures
        r matches Ok(v) && v@ == ings_of_meal(db@, meal_id),
{
    Ingredient::get_for_meal(db, meal_id)
}

/// The meal with id `id`, together with its ingredient list.
pub fn get_meal(db: &Database, id: i32) -> (r: Result<MealWithIngredients, DbError>)
    requires
        inv(db@),
    ensures
        match r {
            Ok(mwi) => {
                &&& has_meal(db@, id)
                &&& mwi.meal.id == id
                &&& db@.meals.contains(mwi.meal)
                &&& mwi.ingredients@ == ings_of_meal(db@, id)
            },
            Err(e) => e == DbError::NotFound && !has_meal(db@, id),
        },
{
    let meal = match Meal::get(db, id) {
        Ok(m) => m,
        Err(e) => {
            return Err(e);
        },
    };
    let ingredients = match Ingredient::get_for_meal(db, meal.id) {
        Ok(v) => v,
        Err(_) => {
            proof {
                assert(false);
            }
            return Err(DbError::Inconsistent);
        },
    };
    Ok(MealWithIngredients { meal, ingredients })
}

/// Removes one meal and everything owned by it; refused while a day
/// still has the meal assigned.
pub fn delete_meal(db: &mut Database, id: i32) -> (r: Result<usize, DbError>)
    requires
        inv(old(db)@),
    ensures
        inv(final(db)@),
        match r {
            Ok(count) => {
                &&& !crate::store::meal_in_use(old(db)@, id)
                &&& count == if has_meal(old(db)@, id) {
                    1int
                } else {
                    0int
                }
                &&& final(db)@ == (StateV {
                    meals: crate::store::meals_without(old(db)@, id),
                    ingredients: crate::store::ings_without_meal(old(db)@, id),
                    day_ingredients: crate::store::dis_without_meal_ings(old(db)@, id),
                    ..old(db)@
                })
            },
            Err(e) => {
                &&& e == DbError::ForeignKeyViolation
                &&& crate::store::meal_in_use(old(db)@, id)
                &&& final(db)@ == old(db)@
            },
        },
{
    Meal::delete(db, id)
}

/// Replaces a meal's own fields and its whole ingredient list, and
/// propagates the new list to every day currently assigned to the meal:
/// the old ingredients disappear everywhere, and each new ingredient
/// starts unbought on each of those days.
#[verifier::loop_isolation(false)]
#[verifier::rlimit(100)]
pub fn update_meal_with_ingredients(
    db: &mut Database,
    meal: Meal,
    ingredient_forms: Vec<IngredientForm>,
) -> (r: Result<MealWithIngredients, DbError>)
    requires
        inv(old(db)@),
    ensures
        inv(final(db)@),
        match r {
            Ok(mwi) => ({
                let s0 = old(db)@;
                let s1 = final(db)@;
                let gs = new_ings_spec(s0.next_ingredient_id, ingredient_forms@, meal.id);
                &&& has_meal(s0, meal.id)
                &&& s0.next_ingredient_id + ingredient_forms@.len() <= i32::MAX
                &&& exists|k: int|
                    0 <= k < s0.meals.len() && (#[trigger] s0.meals[k]).id == meal.id && s1.meals
                        == s0.meals.update(k, meal)
                &&& s1.ingredients == crate::store::ings_without_meal(s0, meal.id) + gs
                &&& s1.day_ingredients == crate::store::dis_without_meal_ings(s0, meal.id)
                    + cross_dis(gs, days_of_meal(s0, meal.id))
                &&& s1.days == s0.days
                &&& s1.extra_items == s0.extra_items
                &&& s1.next_ingredient_id == s0.next_ingredient_id + ingredient_forms@.len()
                &&& s1.next_day_id == s0.next_day_id
                &&& s1.next_meal_id == s0.next_meal_id
                &&& s1.next_extra_item_id == s0.next_extra_item_id
                &&& mwi.meal == meal
                &&& mwi.ingredients@ == gs
            }),
            Err(e) => {
                &&& final(db)@ == old(db)@
                &&& (e == DbError::NotFound || e == DbError::Full)
                &&& (e == DbError::NotFound <==> !has_meal(old(db)@, meal.id))
                &&& (e == DbError::Full <==> has_meal(old(db)@, meal.id) && old(
                    db,
                )@.next_ingredient_id + ingredient_forms@.len() > i32::MAX)
            },
        },
{
    let ghost s0 = db@;
    if db.find_meal_idx(meal.id).is_none() {
        return Err(DbError::NotFound);
    }
    if ingredient_forms.len() > (i32::MAX - db.next_ingredient_id_now()) as usize {
        return Err(DbError::Full);
    }
    let updated = match meal.update(db) {
        Ok(m) => m,
        Err(_) => {
            proof {
                assert(false);
            }
            return Err(DbError::Inconsistent);
        },
    };
    let ghost sm = db@;
    let _ = delete_ingredients(db, meal.id);
    let ghost sd = db@;
    let meal_days = match Day::get_for_meal(db, meal.id) {
        Ok(v) => v,
        Err(_) => {
            proof {
                assert(false);
            }
            return Err(DbError::Inconsistent);
        },
    };
    let ghost md = days_of_meal(s0, meal.id);
    let ghost gs = new_ings_spec(s0.next_ingredient_id, ingredient_forms@, meal.id);
    proof {
        let k0 = choose|k: int|
            0 <= k < s0.meals.len() && (#[trigger] s0.meals[k]).id == meal.id && sm == (StateV {
                meals: s0.meals.update(k, meal),
                ..s0
            });
        assert(meal_days@ == md) by {
            assert(days_of_meal(sd, meal.id) =~= days_of_meal(s0, meal.id));
        }
        lemma_filter_distinct(s0.days, |d: Day| d.meal_id == Some(meal.id));
        assert forall|a: int, b: int| 0 <= a < b < md.len() implies (#[trigger] md[a]).id != (
        #[trigger] md[b]).id by {
            let k1 = choose|k: int| 0 <= k < s0.days.len() && s0.days[k] == md[a];
            let k2 = choose|k: int| 0 <= k < s0.days.len() && s0.days[k] == md[b];
            assert(k1 != k2);
        }
        lemma_filter_distinct(
            s0.day_ingredients,
            |di: DayIngredient|
                !crate::store::seq_ing_belongs(s0.ingredients, di.ingredient_id, meal.id),
        );
    }
    proof {
        assert(gs.take(0) =~= Seq::<Ingredient>::empty());
        assert(db@ =~= (StateV {
            meals: sm.meals,
            ingredients: crate::store::ings_without_meal(s0, meal.id) + gs.take(0),
            day_ingredients: crate::store::dis_without_meal_ings(s0, meal.id) + cross_dis(
                gs.take(0),
                md,
            ),
            next_ingredient_id: s0.next_ingredient_id + 0,
            ..s0
        }));
    }
    let mut new_ings: Vec<Ingredient> = Vec::new();
    let mut i: usize = 0;
    while i < ingredient_forms.len()
        invariant
            i <= ingredient_forms@.len(),
            new_ings@ == gs.take(i as int),
            inv(db@),
            db@ == (StateV {
                meals: sm.meals,
                ingredients: crate::store::ings_without_meal(s0, meal.id) + gs.take(i as int),
                day_ingredients: crate::store::dis_without_meal_ings(s0, meal.id) + cross_dis(
                    gs.take(i as int),
                    md,
                ),
                next_ingredient_id: s0.next_ingredient_id + i,
                ..s0
            }),
        decreases ingredient_forms@.len() - i,
    {
        let mut form = ingredient_forms[i].clone();
        form.meal_id = meal.id;
        proof {
            assert(has_meal(db@, meal.id)) by {
                let k = choose|k: int|
                    0 <= k < s0.meals.len() && (#[trigger] s0.meals[k]).id == meal.id && sm.meals
                        == s0.meals.update(k, meal);
                assert(db@.meals[k].id == meal.id);
            }
        }
        let g = match form.insert(db) {
            Ok(g) => g,
            Err(_) => {
                proof {
                    assert(false);
                }
                return Err(DbError::Inconsistent);
            },
        };
        proof {
            assert(g == gs[i as int]);
            assert(crate::store::ings_without_meal(s0, meal.id) + gs.take(i as int).push(g)
                =~= crate::store::ings_without_meal(s0, meal.id) + gs.take(i as int + 1));
            assert(new_ings@.push(g) =~= gs.take(i as int + 1));
        }
        new_ings.push(g.clone());
        let ghost s_ins = db@;
        let mut j: usize = 0;
        while j < meal_days.len()
            invariant
                j <= md.len(),
                inv(db@),
                db@ == (StateV {
                    day_ingredients: s_ins.day_ingredients + dis_for_days(g.id, md.take(j as int)),
                    ..s_ins
                }),
                s_ins == (StateV {
                    meals: sm.meals,
                    ingredients: crate::store::ings_without_meal(s0, meal.id) + gs.take(
                        i as int + 1,
                    ),
                    day_ingredients: crate::store::dis_without_meal_ings(s0, meal.id) + cross_dis(
                        gs.take(i as int),
                        md,
                    ),
                    next_ingredient_id: s0.next_ingredient_id + i + 1,
                    ..s0
                }),
            decreases md.len() - j,
        {
            let d = meal_days[j];
            let di = DayIngredient { day_id: d.id, ingredient_id: g.id, bought: false };
            proof {
                assert(has_day(db@, d.id)) by {
                    assert(s0.days.contains(md[j as int]));
                    let k = choose|k: int| 0 <= k < s0.days.len() && s0.days[k] == md[j as int];
                    assert(db@.days[k].id == d.id);
                }
                assert(has_ingredient(db@, g.id)) by {
                    let pos = crate::store::ings_without_meal(s0, meal.id).len() + i;
                    assert(db@.ingredients[pos as int].id == g.id);
                }
                assert(!has_day_ingredient(db@, d.id, g.id)) by {
                    let dwmi = crate::store::dis_without_meal_ings(s0, meal.id);
                    let c = cross_dis(gs.take(i as int), md);
                    let tail = dis_for_days(g.id, md.take(j as int));
                    if has_day_ingredient(db@, d.id, g.id) {
                        let w = choose|w: int|
                            0 <= w < db@.day_ingredients.len() && (
                            #[trigger] db@.day_ingredients[w]).day_id == d.id
                                && db@.day_ingredients[w].ingredient_id == g.id;
                        if w < dwmi.len() {
                            assert(db@.day_ingredients[w] == dwmi[w]);
                            assert(s0.day_ingredients.contains(dwmi[w]));
                            let k = choose|k: int|
                                0 <= k < s0.day_ingredients.len() && s0.day_ingredients[k]
                                    == dwmi[w];
                            assert(crate::store::seq_has_ingredient(
                                s0.ingredients,
                                s0.day_ingredients[k].ingredient_id,
                            ));
                            let v = choose|v: int|
                                0 <= v < s0.ingredients.len() && (#[trigger] s0.ingredients[v]).id
                                    == s0.day_ingredients[k].ingredient_id;
                            assert(s0.ingredients[v].id < s0.next_ingredient_id);
                            assert(false);
                        } else if w < dwmi.len() + c.len() {
                            lemma_cross_dis_ids(
                                gs.take(i as int),
                                md,
                                s0.next_ingredient_id,
                                s0.next_ingredient_id + i,
                            );
                            let ww = w - dwmi.len();
                            assert(c[ww] == db@.day_ingredients[w]);
                            assert(c[ww].ingredient_id < s0.next_ingredient_id + i);
                            assert(false);
                        } else {
                            let b = w - dwmi.len() - c.len();
                            assert(db@.day_ingredients[w] == tail[b]);
                            assert(md.take(j as int)[b].id == d.id);
                            assert(md[b].id == md[j as int].id);
                            assert(false);
                        }
                    }
                }
            }
            let _ = match di.insert(db) {
                Ok(x) => x,
                Err(_) => {
                    proof {
                        assert(false);
                    }
                    return Err(DbError::Inconsistent);
                },
            };
            proof {
                assert(md.take(j as int).push(md[j as int]) =~= md.take(j as int + 1));
                assert(dis_for_days(g.id, md.take(j as int)).push(di) =~= dis_for_days(
                    g.id,
                    md.take(j as int + 1),
                ));
                assert(db@ =~= (StateV {
                    day_ingredients: s_ins.day_ingredients + dis_for_days(
                        g.id,
                        md.take(j as int + 1),
                    ),
                    ..s_ins
                }));
            }
            j = j + 1;
        }
        proof {
            assert(md.take(md.len() as int) =~= md);
            assert(gs.take(i as int + 1).drop_last() =~= gs.take(i as int));
            assert(cross_dis(gs.take(i as int + 1), md) == cross_dis(gs.take(i as int), md)
                + dis_for_days(gs[i as int].id, md));
            assert(db@ =~= (StateV {
                meals: sm.meals,
                ingredients: crate::store::ings_without_meal(s0, meal.id) + gs.take(i as int + 1),
                day_ingredients: crate::store::dis_without_meal_ings(s0, meal.id) + cross_dis(
                    gs.take(i as int + 1),
                    md,
                ),
                next_ingredient_id: s0.next_ingredient_id + i + 1,
                ..s0
            }));
        }
        i = i + 1;
    }
    proof {
        assert(gs.take(gs.len() as int) =~= gs);
    }
    Ok(MealWithIngredients { meal, ingredients: new_ings })
}

/// Creates a meal together with its initial ingredient list.
#[verifier::loop_isolation(false)]
#[verifier::rlimit(100)]
pub fn create_meal_with_ingredients(
    db: &mut Database,
    meal_form: crate::models::MealForm,
    ingredient_forms: Vec<IngredientForm>,
) -> (r: Result<MealWithIngredients, DbError>)
    requires
        inv(old(db)@),
    ensures
        inv(final(db)@),
        match r {
            Ok(mwi) => ({
                let s0 = old(db)@;
                let s1 = final(db)@;
                let m = mwi.meal;
                let gs = new_ings_spec(s0.next_ingredient_id, ingredient_forms@, m.id);
                &&& s0.next_meal_id < i32::MAX
                &&& s0.next_ingredient_id + ingredient_forms@.len() <= i32::MAX
                &&& m.id == s0.next_meal_id
                &&& m.name == meal_form.name
                &&& m.image == meal_form.image
                &&& m.recipie_url == meal_form.recipie_url
                &&& s1.meals == s0.meals.push(m)
                &&& s1.ingredients == s0.ingredients + gs
                &&& s1.day_ingredients == s0.day_ingredients
                &&& s1.days == s0.days
                &&& s1.extra_items == s0.extra_items
                &&& s1.next_meal_id == s0.next_meal_id + 1
                &&& s1.next_ingredient_id == s0.next_ingredient_id + ingredient_forms@.len()
                &&& s1.next_day_id == s0.next_day_id
                &&& s1.next_extra_item_id == s0.next_extra_item_id
                &&& mwi.ingredients@ == gs
            }),
            Err(e) => {
                &&& final(db)@ == old(db)@
                &&& e == DbError::Full
                &&& (old(db)@.next_meal_id == i32::MAX || old(db)@.next_ingredient_id
                    + ingredient_forms@.len() > i32::MAX)
            },
        },
{
    let ghost s0 = db@;
    if db.next_meal_id_now() == i32::MAX {
        return Err(DbError::Full);
    }
    if ingredient_forms.len() > (i32::MAX - db.next_ingredient_id_now()) as usize {
        return Err(DbError::Full);
    }
    let meal = match meal_form.insert(db) {
        Ok(m) => m,
        Err(_) => {
            proof {
                assert(false);
            }
            return Err(DbError::Inconsistent);
        },
    };
    let ghost sm = db@;
    let ghost gs = new_ings_spec(s0.next_ingredient_id, ingredient_forms@, meal.id);
    proof {
        assert(gs.take(0) =~= Seq::<Ingredient>::empty());
        assert(db@ =~= (StateV {
            meals: s0.meals.push(meal),
            ingredients: s0.ingredients + gs.take(0),
            next_meal_id: s0.next_meal_id + 1,
            next_ingredient_id: s0.next_ingredient_id + 0,
            ..s0
        }));
    }
    let mut new_ings: Vec<Ingredient> = Vec::new();
    let mut i: usize = 0;
    while i < ingredient_forms.len()
        invariant
            i <= ingredient_forms@.len(),
            new_ings@ == gs.take(i as int),
            inv(db@),
            db@ == (StateV {
                meals: s0.meals.push(meal),
                ingredients: s0.ingredients + gs.take(i as int),
                next_meal_id: s0.next_meal_id + 1,
                next_ingredient_id: s0.next_ingredient_id + i,
                ..s0
            }),
        decreases ingredient_forms@.len() - i,
    {
        let mut form = ingredient_forms[i].clone();
        form.meal_id = meal.id;
        proof {
            assert(has_meal(db@, meal.id)) by {
                assert(db@.meals[s0.meals.len() as int].id == meal.id);
            }
        }
        let g = match form.insert(db) {
            Ok(g) => g,
            Err(_) => {
                proof {
                    assert(false);
                }
                return Err(DbError::Inconsistent);
            },
        };
        proof {
            assert(g == gs[i as int]);
            assert(s0.ingredients + gs.take(i as int).push(g) =~= s0.ingredients + gs.take(
                i as int + 1,
            ));
            assert(new_ings@.push(g) =~= gs.take(i as int + 1));
        }
        new_ings.push(g);
        i = i + 1;
    }
    proof {
        assert(gs.take(gs.len() as int) =~= gs);
    }
    Ok(MealWithIngredients { meal, ingredients: new_ings })
}

/// The day rows whose stored week and year fields match the requested
/// pair, in insertion order.
pub open spec fn week_rows(days: Seq<Day>, wk: i32, yr: i32) -> Seq<Day> {
    days.filter(|d: Day| d.week == wk && d.year == yr)
}

/// The day row that week assembly creates for day number `n`: no meal,
/// and week and year derived from the date itself.
pub open spec fn filled_day(s: StateV, n: int) -> Day {
    Day {
        id: s.next_day_id as i32,
        date: spec_date(n),
        meal_id: None,
        week: spec_iso_week_of(n) as i32,
        year: spec_iso_year_of(n) as i32,
        anders_attend: false,
        ac_attend: false,
        andreas_attend: false,
    }
}

/// Week assembly's per-date step: a day row for day number `n` is
/// created only when no row holds that date yet.
pub open spec fn insert_missing(s: StateV, n: int) -> StateV {
    if has_day_date(s, spec_date(n)) {
        s
    } else {
        StateV { days: s.days.push(filled_day(s, n)), next_day_id: s.next_day_id + 1, ..s }
    }
}

/// The first `j` per-date steps of week assembly, for the week whose
/// Monday has day number `monday`.
pub open spec fn fill_upto(s: StateV, monday: int, j: int) -> StateV
    decreases j,
{
    if j <= 0 {
        s
    } else {
        insert_missing(fill_upto(s, monday, j - 1), monday + (j - 1))
    }
}

/// How week assembly changes the store: when fewer than seven rows match
/// the requested (week, year) pair and the pair is a valid ISO week, the
/// seven dates of the week are each given a row if missing; otherwise
/// nothing changes.
pub open spec fn spec_fill_week(s: StateV, week: Week) -> StateV {
    if week_rows(s.days, week.week as i32, week.year).len() < 7 && spec_valid_week(
        week.week as int,
        week.year as int,
    ) {
        fill_upto(s, spec_week_monday(week.week as int, week.year as int), 7)
    } else {
        s
    }
}

/// A per-date fill step never loses a date that already has a row.
proof fn lemma_insert_missing_keeps_date(s: StateV, n: int, d: Date)
    requires
        has_day_date(s, d),
    ensures
        has_day_date(insert_missing(s, n), d),
{
    let k = choose|k: int| 0 <= k < s.days.len() && (#[trigger] s.days[k]).date == d;
    assert(insert_missing(s, n).days[k].date == d);
}

/// After a per-date fill step, the step's own date has a row.
proof fn lemma_insert_missing_adds_date(s: StateV, n: int)
    ensures
        has_day_date(insert_missing(s, n), spec_date(n)),
{
    if !has_day_date(s, spec_date(n)) {
        assert(insert_missing(s, n).days[s.days.len() as int].date == spec_date(n));
    }
}

proof fn lemma_fill_upto_covers(s: StateV, monday: int, steps: int, t: int)
    requires
        0 <= t < steps,
    ensures
        has_day_date(fill_upto(s, monday, steps), spec_date(monday + t)),
    decreases steps,
{
    if t == steps - 1 {
        lemma_insert_missing_adds_date(fill_upto(s, monday, steps - 1), monday + (steps - 1));
    } else {
        lemma_fill_upto_covers(s, monday, steps - 1, t);
        lemma_insert_missing_keeps_date(
            fill_upto(s, monday, steps - 1),
            monday + (steps - 1),
            spec_date(monday + t),
        );
    }
}

/// Assembling a valid week leaves a day row on each of its seven
/// consecutive dates, Monday through Sunday: no date is skipped, and
/// none is duplicated, since the store invariant that `days_for_week`
/// ensures of the final state keeps dates unique. This holds in
/// particular for week 1 of a year right after a 53-week year, where a
/// year-boundary week-count mistake would lose or repeat a date.
pub proof fn lemma_fill_week_covers_dates(s: StateV, week: Week, j: int)
    requires
        spec_valid_week(week.week as int, week.year as int),
        week_rows(s.days, week.week as i32, week.year).len() < 7,
        0 <= j < 7,
    ensures
        has_day_date(
            spec_fill_week(s, week),
            spec_date(spec_week_monday(week.week as int, week.year as int) + j),
        ),
{
    lemma_fill_upto_covers(s, spec_week_monday(week.week as int, week.year as int), 7, j);
}

/// Sorts day rows by date, ascending.
fn sort_days_by_date(v: Vec<Day>) -> (out: Vec<Day>)
    ensures
        out@.to_multiset() == v@.to_multiset(),
        out@.len() == v@.len(),
        forall|a: int, b: int| 0 <= a < b < out@.len() ==> out@[a].date@ <= out@[b].date@,
{
    broadcast use vstd::seq_lib::group_to_multiset_ensures;
    broadcast use vstd::multiset::group_multiset_axioms;

    let mut src = v;
    let mut out: Vec<Day> = Vec::new();
    proof {
        assert(out@.to_multiset().add(src@.to_multiset()) =~= v@.to_multiset());
        assert(out@.len() + src@.len() == v@.len());
    }
    while src.len() > 0
        invariant
            out@.to_multiset().add(src@.to_multiset()) == v@.to_multiset(),
            out@.len() + src@.len() == v@.len(),
            forall|a: int, b: int| 0 <= a < b < out@.len() ==> out@[a].date@ <= out@[b].date@,
            forall|a: int, b: int|
                0 <= a < out@.len() && 0 <= b < src@.len() ==> out@[a].date@ <= src@[b].date@,
        decreases src@.len(),
    {
        let mut m: usize = 0;
        let mut t: usize = 1;
        while t < src.len()
            invariant
                m < t <= src@.len(),
                src@.len() > 0,
                forall|b: int| 0 <= b < t ==> src@[m as int].date@ <= (#[trigger] src@[b]).date@,
            decreases src@.len() - t,
        {
            if src[t].date.day_number() < src[m].date.day_number() {
                m = t;
            }
            t = t + 1;
        }
        let ghost src_before = src@;
        let ghost out_before = out@;
        let d = src.remove(m);
        out.push(d);
        proof {
            broadcast use vstd::seq_lib::group_to_multiset_ensures;
            broadcast use vstd::multiset::group_multiset_axioms;

            assert(src@ == src_before.remove(m as int));
            assert(out@ == out_before.push(d));
            assert(src_before.remove(m as int).to_multiset() =~= src_before.to_multiset().remove(
                src_before[m as int],
            ));
            assert(out_before.push(d).to_multiset() =~= out_before.to_multiset().insert(d));
            assert(src_before.contains(src_before[m as int]));
            assert(src_before.to_multiset().count(d) > 0);
            assert(out@.to_multiset().add(src@.to_multiset()) =~= v@.to_multiset());
            assert forall|b: int| 0 <= b < src@.len() implies d.date@ <= (
            #[trigger] src@[b]).date@ by {
                if b < m {
                    assert(src@[b] == src_before[b]);
                } else {
                    assert(src@[b] == src_before[b + 1]);
                }
            }
        }
    }
    out
}

/// Answers "what does this week look like": the seven days of the
/// requested ISO week in date order, each with its assigned meal and
/// per-day ingredient shopping state, creating any missing day rows
/// first. Fails loudly when the requery does not see exactly seven rows.
#[verifier::rlimit(100)]
pub fn days_for_week(db: &mut Database, week: Week) -> (r: Result<
    Vec<DayWithMealAndIngredients>,
    DbError,
>)
    requires
        inv(old(db)@),
    ensures
        inv(final(db)@),
        final(db)@ == spec_fill_week(old(db)@, week) || final(db)@ == old(db)@,
        match r {
            Ok(v) => ({
                let s1 = final(db)@;
                let rows = week_rows(s1.days, week.week as i32, week.year);
                &&& s1 == spec_fill_week(old(db)@, week)
                &&& rows.len() == 7
                &&& v@.len() == 7
                &&& v@.map_values(|p: DayWithMealAndIngredients| p.day).to_multiset()
                    == rows.to_multiset()
                &&& forall|a: int, b: int|
                    0 <= a < b < 7 ==> (#[trigger] v@[a]).day.date@ <= (#[trigger] v@[b]).day.date@
                &&& forall|i: int| 0 <= i < 7 ==> day_meal_view_ok(s1, (#[trigger] v@[i]).day, v@[i].meal)
            }),
            Err(e) => ({
                let s0 = old(db)@;
                let short = week_rows(s0.days, week.week as i32, week.year).len() < 7;
                let valid = spec_valid_week(week.week as int, week.year as int);
                &&& (e == DbError::Full || e == DbError::Inconsistent)
                &&& (e == DbError::Full <==> short && valid && s0.next_day_id > i32::MAX - 7)
                &&& (e == DbError::Full ==> final(db)@ == s0)
                &&& (e == DbError::Inconsistent ==> final(db)@ == spec_fill_week(s0, week)
                    && week_rows(final(db)@.days, week.week as i32, week.year).len() != 7)
            }),
        },
{
    let ghost s0 = db@;
    let wk: i32 = #[verifier::truncate] (week.week as i32);
    let yr: i32 = week.year;
    let ghost rowpred = |d: Day| d.week == wk && d.year == yr;
    let mut count: usize = 0;
    let mut ci: usize = 0;
    while ci < db.days_len()
        invariant
            db@ == s0,
            ci <= s0.days.len(),
            count == week_rows(s0.days.take(ci as int), wk, yr).len(),
            rowpred == (|d: Day| d.week == wk && d.year == yr),
        decreases s0.days.len() - ci,
    {
        proof {
            lemma_filter_take_push(s0.days, rowpred, ci as int);
        }
        let drow = db.day_at(ci);
        if drow.week == wk && drow.year == yr {
            count = count + 1;
        }
        ci = ci + 1;
    }
    proof {
        assert(s0.days.take(s0.days.len() as int) =~= s0.days);
    }
    let ghost monday = spec_week_monday(week.week as int, week.year as int);
    if count < 7 {
        let dates = week.dates();
        if dates.len() > 0 && db.next_day_id_now() > i32::MAX - 7 {
            return Err(DbError::Full);
        }
        let mut j: usize = 0;
        while j < dates.len()
            invariant
                j <= dates@.len(),
                db@ == fill_upto(s0, monday, j as int),
                db@.next_day_id <= s0.next_day_id + j,
                inv(db@),
                dates@.len() == 0 || s0.next_day_id <= i32::MAX - 7,
                monday == spec_week_monday(week.week as int, week.year as int),
                dates@.len() == 0 || (dates@.len() == 7 && spec_valid_week(
                    week.week as int,
                    week.year as int,
                ) && forall|jj: int|
                    0 <= jj < 7 ==> (#[trigger] dates@[jj])@ == monday + jj
                        && dates@[jj].is_valid()),
            decreases dates@.len() - j,
        {
            let date_j = dates[j];
            proof {
                lemma_date_view_injective(date_j);
            }
            if db.find_day_by_date(date_j).is_none() {
                let wy = Week::of_date(date_j);
                proof {
                    crate::week::lemma_weeks_in_year(wy.year as int);
                }
                let form = DayForm {
                    date: date_j,
                    meal_id: None,
                    week: wy.week as i32,
                    year: wy.year,
                };
                let _ = match form.upsert(db) {
                    Ok(d) => d,
                    Err(_) => {
                        proof {
                            assert(false);
                        }
                        return Err(DbError::Inconsistent);
                    },
                };
                proof {
                    assert(db@ =~= insert_missing(fill_upto(s0, monday, j as int), monday
                        + j as int));
                }
            } else {
                proof {
                    assert(has_day_date(fill_upto(s0, monday, j as int), spec_date(monday
                        + j as int)));
                }
            }
            j = j + 1;
        }
    }
    let ghost s1 = db@;
    proof {
        assert(s1 == spec_fill_week(s0, week));
    }
    let mut rows: Vec<Day> = Vec::new();
    let mut i: usize = 0;
    while i < db.days_len()
        invariant
            i <= s1.days.len(),
            rows@ == week_rows(s1.days.take(i as int), wk, yr),
            db@ == s1,
            rowpred == (|d: Day| d.week == wk && d.year == yr),
        decreases s1.days.len() - i,
    {
        proof {
            lemma_filter_take_push(s1.days, rowpred, i as int);
        }
        let drow = db.day_at(i);
        if drow.week == wk && drow.year == yr {
            rows.push(drow);
        }
        i = i + 1;
    }
    proof {
        assert(s1.days.take(s1.days.len() as int) =~= s1.days);
    }
    if rows.len() != 7 {
        return Err(DbError::Inconsistent);
    }
    let sorted = sort_days_by_date(rows);
    let mut out: Vec<DayWithMealAndIngredients> = Vec::new();
    let mut p: usize = 0;
    while p < sorted.len()
        invariant
            p <= sorted@.len(),
            sorted@.len() == 7,
            db@ == s1,
            inv(s1),
            sorted@.to_multiset() == week_rows(s1.days, wk, yr).to_multiset(),
            rowpred == (|d: Day| d.week == wk && d.year == yr),
            out@.len() == p,
            forall|i: int| 0 <= i < p ==> (#[trigger] out@[i]).day == sorted@[i],
            forall|i: int| 0 <= i < p ==> day_meal_view_ok(s1, (#[trigger] out@[i]).day, out@[i].meal),
        decreases sorted@.len() - p,
    {
        let day = sorted[p];
        proof {
            broadcast use vstd::seq_lib::group_to_multiset_ensures;
            broadcast use vstd::multiset::group_multiset_axioms;

            assert(sorted@.contains(day));
            assert(sorted@.to_multiset().count(day) > 0);
            assert(week_rows(s1.days, wk, yr).to_multiset().contains(day));
            assert(week_rows(s1.days, wk, yr).contains(day));
            lemma_filter_distinct(s1.days, rowpred);
            let w = choose|w: int|
                0 <= w < week_rows(s1.days, wk, yr).len() && week_rows(s1.days, wk, yr)[w] == day;
            assert(s1.days.contains(day));
        }
        let meal_opt: Option<(Meal, Vec<IngredientWithBought>)> = match day.meal_id {
            None => None,
            Some(mid) => {
                proof {
                    let k = choose|k: int| 0 <= k < s1.days.len() && s1.days[k] == day;
                    assert(s1.days[k].meal_id matches Some(x) && x == mid);
                    assert(crate::store::seq_has_meal(s1.meals, mid));
                }
                let m = match Meal::get(db, mid) {
                    Ok(m) => m,
                    Err(_) => {
                        proof {
                            assert(false);
                        }
                        return Err(DbError::Inconsistent);
                    },
                };
                proof {
                    lemma_filter_distinct(
                        s1.day_ingredients,
                        |di: DayIngredient| di.day_id == day.id,
                    );
                    assert forall|i: int| 0 <= i < dis_of_day(s1, day.id).len() implies crate::store::seq_has_ingredient(
                        s1.ingredients,
                        (#[trigger] dis_of_day(s1, day.id)[i]).ingredient_id,
                    ) by {
                        assert(s1.day_ingredients.contains(dis_of_day(s1, day.id)[i]));
                        let k = choose|k: int|
                            0 <= k < s1.day_ingredients.len() && s1.day_ingredients[k]
                                == dis_of_day(s1, day.id)[i];
                        assert(crate::store::seq_has_ingredient(
                            s1.ingredients,
                            s1.day_ingredients[k].ingredient_id,
                        ));
                    }
                }
                let iwbs = day_ingredients_view_exec(db, day.id);
                Some((m, iwbs))
            },
        };
        out.push(DayWithMealAndIngredients { day, meal: meal_opt });
        p = p + 1;
    }
    proof {
        assert(out@.map_values(|q: DayWithMealAndIngredients| q.day) =~= sorted@);
    }
    Ok(out)
}

/// The joined per-day ingredient rows of one day, as the week view
/// presents them.
fn day_ingredients_view_exec(db: &Database, day_id: i32) -> (r: Vec<IngredientWithBought>)
    requires
        inv(db@),
        forall|i: int|
            0 <= i < dis_of_day(db@, day_id).len() ==> crate::store::seq_has_ingredient(
                db@.ingredients,
                (#[trigger] dis_of_day(db@, day_id)[i]).ingredient_id,
            ),
    ensures
        r@ == dis_of_day(db@, day_id).map_values(
            |di: DayIngredient| IngredientWithBought {
                day_id: di.day_id,
                ingredient: ing_with_id(db@, di.ingredient_id),
                bought: di.bought,
            },
        ),
{
    let ghost dpred = |di: DayIngredient| di.day_id == day_id;
    let ghost proj = |di: DayIngredient| IngredientWithBought {
        day_id: di.day_id,
        ingredient: ing_with_id(db@, di.ingredient_id),
        bought: di.bought,
    };
    let mut dis: Vec<DayIngredient> = Vec::new();
    let mut i: usize = 0;
    while i < db.day_ingredients_len()
        invariant
            i <= db@.day_ingredients.len(),
            dis@ == db@.day_ingredients.take(i as int).filter(dpred),
            dpred == (|di: DayIngredient| di.day_id == day_id),
        decreases db@.day_ingredients.len() - i,
    {
        proof {
            lemma_filter_take_push(db@.day_ingredients, dpred, i as int);
        }
        let di = db.day_ingredient_at(i);
        if di.day_id == day_id {
            dis.push(di);
        }
        i = i + 1;
    }
    proof {
        assert(db@.day_ingredients.take(db@.day_ingredients.len() as int)
            =~= db@.day_ingredients);
    }
    let mut out: Vec<IngredientWithBought> = Vec::new();
    let mut j: usize = 0;
    while j < dis.len()
        invariant
            inv(db@),
            j <= dis@.len(),
            dis@ == dis_of_day(db@, day_id),
            out@ == dis@.take(j as int).map_values(proj),
            proj == (|di: DayIngredient| IngredientWithBought {
                day_id: di.day_id,
                ingredient: ing_with_id(db@, di.ingredient_id),
                bought: di.bought,
            }),
            forall|i: int|
                0 <= i < dis_of_day(db@, day_id).len() ==> crate::store::seq_has_ingredient(
                    db@.ingredients,
                    (#[trigger] dis_of_day(db@, day_id)[i]).ingredient_id,
                ),
        decreases dis@.len() - j,
    {
        let di = dis[j];
        let g = match db.find_ingredient_idx(di.ingredient_id) {
            Some(k) => {
                proof {
                    assert(db@.ingredients.contains(db@.ingredients[k as int]));
                    let gg = ing_with_id(db@, di.ingredient_id);
                    assert(db@.ingredients.contains(gg) && gg.id == di.ingredient_id);
                    let w1 = choose|w: int|
                        0 <= w < db@.ingredients.len() && db@.ingredients[w] == gg;
                    assert(db@.ingredients[w1].id == db@.ingredients[k as int].id);
                    if w1 < k as int {
                        assert(db@.ingredients[w1].id != db@.ingredients[k as int].id);
                    } else if w1 > k as int {
                        assert(db@.ingredients[k as int].id != db@.ingredients[w1].id);
                    }
                    assert(gg == db@.ingredients[k as int]);
                }
                db.ingredient_at(k)
            },
            None => {
                proof {
                    assert(crate::store::seq_has_ingredient(db@.ingredients, di.ingredient_id));
                    assert(false);
                }
                return Vec::new();
            },
        };
        out.push(IngredientWithBought { day_id: di.day_id, ingredient: g, bought: di.bought });
        proof {
            assert(out@ =~= dis@.take(j as int + 1).map_values(proj));
        }
        j = j + 1;
    }
    proof {
        assert(dis@.take(dis@.len() as int) =~= dis@);
    }
    out
}

/// ASCII upper-case letters folded to lower case; other bytes as they
/// are — the folding the storage engine's case-blind collation applies.
pub open spec fn spec_lower_byte(b: u8) -> u8 {
    if 65 <= b <= 90 {
        (b + 32) as u8
    } else {
        b
    }
}

/// Case-blind lexicographic order on UTF-8 bytes.
pub open spec fn spec_name_le_bytes(a: Seq<u8>, b: Seq<u8>) -> bool
    decreases a.len(),
{
    if a.len() == 0 {
        true
    } else if b.len() == 0 {
        false
    } else if spec_lower_byte(a[0]) < spec_lower_byte(b[0]) {
        true
    } else if spec_lower_byte(a[0]) > spec_lower_byte(b[0]) {
        false
    } else {
        spec_name_le_bytes(a.drop_first(), b.drop_first())
    }
}

/// Meals ordered by name, case-blind.
pub open spec fn spec_meal_name_le(a: Meal, b: Meal) -> bool {
    spec_name_le_bytes(
        vstd::utf8::encode_utf8(a.name@),
        vstd::utf8::encode_utf8(b.name@),
    )
}

/// The name order relates every two byte strings, one way or the other.
pub proof fn lemma_name_le_total(a: Seq<u8>, b: Seq<u8>)
    ensures
        spec_name_le_bytes(a, b) || spec_name_le_bytes(b, a),
    decreases a.len(),
{
    if a.len() > 0 && b.len() > 0 && spec_lower_byte(a[0]) == spec_lower_byte(b[0]) {
        lemma_name_le_total(a.drop_first(), b.drop_first());
    }
}

/// The name order is transitive.
pub proof fn lemma_name_le_trans(a: Seq<u8>, b: Seq<u8>, c: Seq<u8>)
    requires
        spec_name_le_bytes(a, b),
        spec_name_le_bytes(b, c),
    ensures
        spec_name_le_bytes(a, c),
    decreases a.len(),
{
    if a.len() > 0 && b.len() > 0 && c.len() > 0 {
        if spec_lower_byte(a[0]) == spec_lower_byte(b[0]) && spec_lower_byte(b[0])
            == spec_lower_byte(c[0]) {
            lemma_name_le_trans(a.drop_first(), b.drop_first(), c.drop_first());
        }
    }
}

/// Whether meal `a` comes no later than meal `b` in name order.
fn meal_name_le(a: &Meal, b: &Meal) -> (r: bool)
    ensures
        r == spec_meal_name_le(*a, *b),
{
    let ab = a.name.as_str().as_bytes();
    let bb = b.name.as_str().as_bytes();
    let ghost pa = ab@;
    let ghost pb = bb@;
    proof {
        assert(pa.skip(0) =~= pa);
        assert(pb.skip(0) =~= pb);
    }
    let mut i: usize = 0;
    while i < ab.len() && i < bb.len()
        invariant
            i <= pa.len(),
            i <= pb.len(),
            ab@ == pa,
            bb@ == pb,
            pa == vstd::utf8::encode_utf8(a.name@),
            pb == vstd::utf8::encode_utf8(b.name@),
            spec_name_le_bytes(pa, pb) == spec_name_le_bytes(
                pa.skip(i as int),
                pb.skip(i as int),
            ),
        decreases pa.len() - i,
    {
        let mut ca: u8 = ab[i];
        let mut cb: u8 = bb[i];
        if 65 <= ca && ca <= 90 {
            ca = ca + 32;
        }
        if 65 <= cb && cb <= 90 {
            cb = cb + 32;
        }
        proof {
            assert(pa.skip(i as int)[0] == pa[i as int]);
            assert(pb.skip(i as int)[0] == pb[i as int]);
            assert(pa.skip(i as int).drop_first() =~= pa.skip(i as int + 1));
            assert(pb.skip(i as int).drop_first() =~= pb.skip(i as int + 1));
        }
        if ca < cb {
            return true;
        }
        if ca > cb {
            return false;
        }
        i = i + 1;
    }
    proof {
        if i >= pa.len() {
            assert(pa.skip(i as int).len() == 0);
        } else {
            assert(pb.skip(i as int).len() == 0);
            assert(pa.skip(i as int).len() > 0);
        }
    }
    ab.len() <= bb.len()
}

impl Meal {
    /// The meals sorted by name, case-blind, ascending; ties keep no
    /// fixed order.
    pub fn get_all_ordered(db: &Database) -> (r: Result<Vec<Meal>, DbError>)
        ensures
            r matches Ok(v) && v@.to_multiset() == db@.meals.to_multiset() && v@.len()
                == db@.meals.len() && forall|a: int, b: int|
                0 <= a < b < v@.len() ==> spec_meal_name_le(v@[a], v@[b]),
    {
    broadcast use vstd::seq_lib::group_to_multiset_ensures;
    broadcast use vstd::multiset::group_multiset_axioms;

    let all = match Meal::get_all(db) {
        Ok(v) => v,
        Err(_) => {
            proof {
                assert(false);
            }
            return Err(DbError::Inconsistent);
        },
    };
    let ghost v0 = all@;
    let mut src = all;
    let mut out: Vec<Meal> = Vec::new();
    proof {
        assert(out@.to_multiset().add(src@.to_multiset()) =~= v0.to_multiset());
    }
    while src.len() > 0
        invariant
            out@.to_multiset().add(src@.to_multiset()) == v0.to_multiset(),
            out@.len() + src@.len() == v0.len(),
            forall|a: int, b: int| 0 <= a < b < out@.len() ==> spec_meal_name_le(out@[a], out@[b]),
            forall|a: int, b: int|
                0 <= a < out@.len() && 0 <= b < src@.len() ==> spec_meal_name_le(
                    out@[a],
                    src@[b],
                ),
        decreases src@.len(),
    {
        let mut m: usize = 0;
        let mut t: usize = 1;
        proof {
            lemma_name_le_total(
                vstd::utf8::encode_utf8(src@[0].name@),
                vstd::utf8::encode_utf8(src@[0].name@),
            );
        }
        while t < src.len()
            invariant
                m < t <= src@.len(),
                src@.len() > 0,
                forall|b: int|
                    0 <= b < t ==> spec_meal_name_le(src@[m as int], #[trigger] src@[b]),
            decreases src@.len() - t,
        {
            proof {
                lemma_name_le_total(
                    vstd::utf8::encode_utf8(src@[t as int].name@),
                    vstd::utf8::encode_utf8(src@[t as int].name@),
                );
            }
            if !meal_name_le(&src[m], &src[t]) {
                proof {
                    lemma_name_le_total(
                        vstd::utf8::encode_utf8(src@[m as int].name@),
                        vstd::utf8::encode_utf8(src@[t as int].name@),
                    );
                    assert forall|b: int| 0 <= b < t implies spec_meal_name_le(
                        src@[t as int],
                        #[trigger] src@[b],
                    ) by {
                        lemma_name_le_trans(
                            vstd::utf8::encode_utf8(src@[t as int].name@),
                            vstd::utf8::encode_utf8(src@[m as int].name@),
                            vstd::utf8::encode_utf8(src@[b].name@),
                        );
                    }
                }
                m = t;
            }
            t = t + 1;
        }
        let ghost src_before = src@;
        let ghost out_before = out@;
        let d = src.remove(m);
        out.push(d);
        proof {
            broadcast use vstd::seq_lib::group_to_multiset_ensures;
            broadcast use vstd::multiset::group_multiset_axioms;

            assert(src@ == src_before.remove(m as int));
            assert(out@ == out_before.push(d));
            assert(src_before.remove(m as int).to_multiset() =~= src_before.to_multiset().remove(
                src_before[m as int],
            ));
            assert(out_before.push(d).to_multiset() =~= out_before.to_multiset().insert(d));
            assert(src_before.contains(src_before[m as int]));
            assert(src_before.to_multiset().count(d) > 0);
            assert(out@.to_multiset().add(src@.to_multiset()) =~= v0.to_multiset());
            assert forall|b: int| 0 <= b < src@.len() implies spec_meal_name_le(
                d,
                #[trigger] src@[b],
            ) by {
                if b < m {
                    assert(src@[b] == src_before[b]);
                } else {
                    assert(src@[b] == src_before[b + 1]);
                }
            }
        }
    }
        Ok(out)
    }
}

/// The meals sorted by name, case-blind, ascending.
pub fn get_meals_ordered(db: &Database) -> (r: Result<Vec<Meal>, DbError>)
    ensures
        r matches Ok(v) && v@.to_multiset() == db@.meals.to_multiset() && v@.len()
            == db@.meals.len() && forall|a: int, b: int|
            0 <= a < b < v@.len() ==> spec_meal_name_le(v@[a], v@[b]),
{
    Meal::get_all_ordered(db)
}

/// Every meal with its ingredient list, in name order.
pub fn get_all_meals_with_ingredients(db: &Database) -> (r: Result<
    Vec<MealWithIngredients>,
    DbError,
>)
    requires
        inv(db@),
    ensures
        r matches Ok(v) && v@.len() == db@.meals.len() && v@.map_values(
            |mwi: MealWithIngredients| mwi.meal,
        ).to_multiset() == db@.meals.to_multiset() && (forall|a: int, b: int|
            0 <= a < b < v@.len() ==> spec_meal_name_le(
                (#[trigger] v@[a]).meal,
                (#[trigger] v@[b]).meal,
            )) && (forall|i: int|
            0 <= i < v@.len() ==> (#[trigger] v@[i]).ingredients@ == ings_of_meal(
                db@,
                v@[i].meal.id,
            )),
{
    let meals = match get_meals_ordered(db) {
        Ok(v) => v,
        Err(_) => {
            proof {
                assert(false);
            }
            return Err(DbError::Inconsistent);
        },
    };
    let mut out: Vec<MealWithIngredients> = Vec::new();
    let mut i: usize = 0;
    while i < meals.len()
        invariant
            i <= meals@.len(),
            out@.len() == i,
            forall|a: int| 0 <= a < i ==> (#[trigger] out@[a]).meal == meals@[a],
            forall|a: int|
                0 <= a < i ==> (#[trigger] out@[a]).ingredients@ == ings_of_meal(
                    db@,
                    out@[a].meal.id,
                ),
        decreases meals@.len() - i,
    {
        let meal = meals[i].clone();
        let ingredients = match Ingredient::get_for_meal(db, meal.id) {
            Ok(v) => v,
            Err(_) => {
                proof {
                    assert(false);
                }
                return Err(DbError::Inconsistent);
            },
        };
        out.push(MealWithIngredients { meal, ingredients });
        i = i + 1;
    }
    proof {
        assert(out@.map_values(|mwi: MealWithIngredients| mwi.meal) =~= meals@);
    }
    Ok(out)
}

/// A filter that keeps no element leaves nothing.
proof fn lemma_filter_none<A>(s: Seq<A>, pred: spec_fn(A) -> bool)
    requires
        forall|i: int| 0 <= i < s.len() ==> !pred(#[trigger] s[i]),
    ensures
        s.filter(pred) == Seq::<A>::empty(),
    decreases s.len(),
{
    reveal(Seq::filter);
    if s.len() == 0 {
        assert(s.filter(pred) =~= Seq::<A>::empty());
    } else {
        lemma_filter_none(s.drop_last(), pred);
    }
}

/// Week assembly is idempotent on the store: once an assembly has seen
/// exactly seven rows for the requested pair, assembling the same week
/// again changes nothing, so the same rows are listed again.
pub proof fn lemma_week_assembly_idempotent(s: StateV, week: Week)
    requires
        week_rows(spec_fill_week(s, week).days, week.week as i32, week.year).len() == 7,
    ensures
        spec_fill_week(spec_fill_week(s, week), week) == spec_fill_week(s, week),
{
}

/// Two date-ordered listings of the same rows are the same listing,
/// when no date repeats — assembly's output order is determined.
pub proof fn lemma_sorted_dates_unique(x: Seq<Day>, y: Seq<Day>)
    requires
        forall|a: int, b: int| 0 <= a < b < x.len() ==> (#[trigger] x[a]).date@ <= (#[trigger] x[b]).date@,
        forall|a: int, b: int| 0 <= a < b < y.len() ==> (#[trigger] y[a]).date@ <= (#[trigger] y[b]).date@,
        forall|a: int, b: int| 0 <= a < b < x.len() ==> (#[trigger] x[a]).date != (#[trigger] x[b]).date,
        x.to_multiset() == y.to_multiset(),
    ensures
        x == y,
    decreases x.len(),
{
    broadcast use vstd::seq_lib::group_to_multiset_ensures;
    broadcast use vstd::multiset::group_multiset_axioms;

    if x.len() == 0 || y.len() == 0 {
        assert(x.len() == x.to_multiset().len());
        assert(x =~= y);
    } else {
        assert(x.contains(x[0]));
        assert(y.to_multiset().count(x[0]) > 0);
        assert(y.contains(x[0]));
        let i = choose|i: int| 0 <= i < y.len() && y[i] == x[0];
        assert(x.to_multiset().count(y[0]) > 0);
        assert(x.contains(y[0]));
        let j = choose|j: int| 0 <= j < x.len() && x[j] == y[0];
        assert(y[0].date@ <= y[i].date@);
        assert(x[0].date@ <= x[j].date@);
        assert(x[0].date@ == y[0].date@);
        assert(crate::date::spec_date(x[0].date@) == x[0].date) by {
            lemma_date_view_injective(x[0].date);
        }
        assert(crate::date::spec_date(y[0].date@) == y[0].date) by {
            lemma_date_view_injective(y[0].date);
        }
        assert(x[0].date == y[0].date);
        if j != 0 {
            assert(x[0].date != x[j].date);
            assert(x[j].date@ <= x[0].date@);
            assert(x[j].date@ == x[0].date@);
            assert(crate::date::spec_date(x[j].date@) == x[j].date) by {
                lemma_date_view_injective(x[j].date);
            }
            assert(false);
        }
        assert(x[0] == y[0]);
        assert(x.drop_first() =~= x.remove(0));
        assert(y.drop_first() =~= y.remove(0));
        x.to_multiset_ensures();
        y.to_multiset_ensures();
        assert(x.remove(0).to_multiset() =~= x.to_multiset().remove(x[0]));
        assert(y.remove(0).to_multiset() =~= y.to_multiset().remove(y[0]));
        lemma_sorted_dates_unique(x.drop_first(), y.drop_first());
        assert(x.len() == y.len());
        assert forall|i: int| 0 <= i < x.len() implies x[i] == y[i] by {
            if i > 0 {
                assert(x[i] == x.drop_first()[i - 1]);
                assert(y[i] == y.drop_first()[i - 1]);
            }
        }
        assert(x =~= y);
    }
}

/// Assigning a meal to a day leaves the day with exactly one unbought
/// shopping-state row per ingredient of that meal: what a re-fetch of
/// the day shows.
pub proof fn lemma_assignment_resets_day(s0: StateV, s1: StateV, day_id: i32, mid: i32)
    requires
        s1.day_ingredients == dis_without_day(s0.day_ingredients, day_id) + fresh_dis_for(
            day_id,
            ings_of_meal(s0, mid),
        ),
    ensures
        dis_of_day(s1, day_id) == fresh_dis_for(day_id, ings_of_meal(s0, mid)),
        forall|i: int|
            0 <= i < dis_of_day(s1, day_id).len() ==> !(#[trigger] dis_of_day(s1, day_id)[i]).bought
                && dis_of_day(s1, day_id)[i].ingredient_id == ings_of_meal(s0, mid)[i].id,
{
    broadcast use vstd::seq_lib::group_filter_ensures;

    let dwd = dis_without_day(s0.day_ingredients, day_id);
    let fresh = fresh_dis_for(day_id, ings_of_meal(s0, mid));
    let dpred = |di: DayIngredient| di.day_id == day_id;
    assert((dwd + fresh).filter(dpred) == dwd.filter(dpred) + fresh.filter(dpred)) by {
        Seq::filter_distributes_over_add(dwd, fresh, dpred);
    }
    assert(dwd.filter(dpred) == Seq::<DayIngredient>::empty()) by {
        lemma_filter_distinct(s0.day_ingredients, |di: DayIngredient| di.day_id != day_id);
        lemma_filter_none(dwd, dpred);
    }
    assert(fresh.filter(dpred) == fresh) by {
        lemma_filter_all(fresh, dpred);
    }
    assert(dis_of_day(s1, day_id) =~= fresh);
}

/// Overwriting one (day, ingredient) row's bought flag changes that row
/// alone: every other (day, ingredient) pair reads as before.
pub proof fn lemma_toggle_isolated(s0: StateV, s1: StateV, row: DayIngredient, k: int)
    requires
        0 <= k < s0.day_ingredients.len(),
        s0.day_ingredients[k].day_id == row.day_id,
        s0.day_ingredients[k].ingredient_id == row.ingredient_id,
        s1.day_ingredients == s0.day_ingredients.update(k, row),
    ensures
        s1.day_ingredients[k] == row,
        s1.day_ingredients.len() == s0.day_ingredients.len(),
        forall|i: int|
            0 <= i < s1.day_ingredients.len() && !((#[trigger] s1.day_ingredients[i]).day_id
                == row.day_id && s1.day_ingredients[i].ingredient_id == row.ingredient_id)
                ==> s1.day_ingredients[i] == s0.day_ingredients[i],
{
    assert forall|i: int|
        0 <= i < s1.day_ingredients.len() && !((#[trigger] s1.day_ingredients[i]).day_id
            == row.day_id && s1.day_ingredients[i].ingredient_id == row.ingredient_id) implies s1
        .day_ingredients[i] == s0.day_ingredients[i] by {
        if i == k {
            assert(s1.day_ingredients[i] == row);
        }
    }
}

/// Picking out one day's rows from the rows a meal edit inserts: the
/// day gets exactly one row per new ingredient, in order.
proof fn lemma_cross_dis_day(gs: Seq<Ingredient>, md: Seq<Day>, d: Day, w: int)
    requires
        0 <= w < md.len(),
        md[w] == d,
        forall|a: int, b: int| 0 <= a < b < md.len() ==> (#[trigger] md[a]).id != (#[trigger] md[b]).id,
    ensures
        cross_dis(gs, md).filter(|di: DayIngredient| di.day_id == d.id) == fresh_dis_for(
            d.id,
            gs,
        ),
    decreases gs.len(),
{
    broadcast use vstd::seq_lib::group_filter_ensures;

    let dpred = |di: DayIngredient| di.day_id == d.id;
    if gs.len() == 0 {
        assert(cross_dis(gs, md).filter(dpred) =~= fresh_dis_for(d.id, gs)) by {
            reveal(Seq::filter);
        }
    } else {
        lemma_cross_dis_day(gs.drop_last(), md, d, w);
        let block = dis_for_days(gs.last().id, md);
        assert(cross_dis(gs, md).filter(dpred) == cross_dis(gs.drop_last(), md).filter(dpred)
            + block.filter(dpred)) by {
            Seq::filter_distributes_over_add(cross_dis(gs.drop_last(), md), block, dpred);
        }
        assert(block.filter(dpred) =~= seq![
            DayIngredient { day_id: d.id, ingredient_id: gs.last().id, bought: false },
        ]) by {
            let keep = block.filter(dpred);
            assert(block[w] == (DayIngredient {
                day_id: d.id,
                ingredient_id: gs.last().id,
                bought: false,
            }));
            assert(dpred(block[w]));
            assert(block.take(w).filter(dpred) == Seq::<DayIngredient>::empty()) by {
                assert(forall|b: int|
                    0 <= b < w ==> (#[trigger] block.take(w)[b]).day_id == md[b].id);
                assert(forall|b: int| 0 <= b < w ==> md[b].id != d.id);
                lemma_filter_none(block.take(w), dpred);
            }
            assert(block.skip(w + 1).filter(dpred) == Seq::<DayIngredient>::empty()) by {
                assert(forall|b: int|
                    0 <= b < block.skip(w + 1).len() ==> (#[trigger] block.skip(w + 1)[b]).day_id
                        == md[b + w + 1].id);
                assert(forall|b: int| w + 1 <= b < md.len() ==> md[b].id != d.id);
                lemma_filter_none(block.skip(w + 1), dpred);
            }
            assert(block =~= block.take(w) + (seq![block[w]] + block.skip(w + 1)));
            assert(block.filter(dpred) == block.take(w).filter(dpred) + (seq![block[w]]
                + block.skip(w + 1)).filter(dpred)) by {
                Seq::filter_distributes_over_add(
                    block.take(w),
                    seq![block[w]] + block.skip(w + 1),
                    dpred,
                );
            }
            assert((seq![block[w]] + block.skip(w + 1)).filter(dpred) == seq![block[w]].filter(
                dpred,
            ) + block.skip(w + 1).filter(dpred)) by {
                Seq::filter_distributes_over_add(seq![block[w]], block.skip(w + 1), dpred);
            }
            assert(seq![block[w]].filter(dpred) =~= seq![block[w]]) by {
                lemma_filter_all(seq![block[w]], dpred);
            }
        }
        assert(fresh_dis_for(d.id, gs) =~= fresh_dis_for(d.id, gs.drop_last()) + seq![
            DayIngredient { day_id: d.id, ingredient_id: gs.last().id, bought: false },
        ]);
    }
}

/// Editing a meal's ingredient list updates every day assigned to that
/// meal in one stroke: afterwards such a day's shopping rows are exactly
/// one unbought row per new ingredient — provided the day's old rows
/// pointed only at the meal's own ingredients, the shape the cascades
/// maintain.
pub proof fn lemma_meal_edit_updates_days(
    s0: StateV,
    s1: StateV,
    meal_id: i32,
    gs: Seq<Ingredient>,
    d: Day,
)
    requires
        inv(s0),
        s1.day_ingredients == crate::store::dis_without_meal_ings(s0, meal_id) + cross_dis(
            gs,
            days_of_meal(s0, meal_id),
        ),
        s0.days.contains(d),
        d.meal_id == Some(meal_id),
        forall|i: int|
            0 <= i < dis_of_day(s0, d.id).len() ==> crate::store::seq_ing_belongs(
                s0.ingredients,
                (#[trigger] dis_of_day(s0, d.id)[i]).ingredient_id,
                meal_id,
            ),
    ensures
        dis_of_day(s1, d.id) == fresh_dis_for(d.id, gs),
{
    broadcast use vstd::seq_lib::group_filter_ensures;

    let md = days_of_meal(s0, meal_id);
    let dwmi = crate::store::dis_without_meal_ings(s0, meal_id);
    let dpred = |di: DayIngredient| di.day_id == d.id;
    assert((dwmi + cross_dis(gs, md)).filter(dpred) == dwmi.filter(dpred) + cross_dis(
        gs,
        md,
    ).filter(dpred)) by {
        Seq::filter_distributes_over_add(dwmi, cross_dis(gs, md), dpred);
    }
    assert(dwmi.filter(dpred) == Seq::<DayIngredient>::empty()) by {
        lemma_filter_distinct(
            s0.day_ingredients,
            |di: DayIngredient|
                !crate::store::seq_ing_belongs(s0.ingredients, di.ingredient_id, meal_id),
        );
        assert forall|i: int| 0 <= i < dwmi.len() implies !dpred(#[trigger] dwmi[i]) by {
            if dwmi[i].day_id == d.id {
                let k = choose|k: int|
                    0 <= k < s0.day_ingredients.len() && s0.day_ingredients[k] == dwmi[i];
                assert(s0.day_ingredients[k].day_id == d.id);
                assert(dpred(s0.day_ingredients[k]));
                assert(dis_of_day(s0, d.id).contains(s0.day_ingredients[k]));
                let v = choose|v: int|
                    0 <= v < dis_of_day(s0, d.id).len() && dis_of_day(s0, d.id)[v]
                        == s0.day_ingredients[k];
                assert(crate::store::seq_ing_belongs(
                    s0.ingredients,
                    dis_of_day(s0, d.id)[v].ingredient_id,
                    meal_id,
                ));
                assert(!crate::store::seq_ing_belongs(
                    s0.ingredients,
                    dwmi[i].ingredient_id,
                    meal_id,
                ));
                assert(false);
            }
        }
        lemma_filter_none(dwmi, dpred);
    }
    assert(md.contains(d)) by {
        let k = choose|k: int| 0 <= k < s0.days.len() && s0.days[k] == d;
        assert((|dd: Day| dd.meal_id == Some(meal_id))(s0.days[k]));
    }
    let w = choose|w: int| 0 <= w < md.len() && md[w] == d;
    assert forall|a: int, b: int| 0 <= a < b < md.len() implies (#[trigger] md[a]).id != (
    #[trigger] md[b]).id by {
        lemma_filter_distinct(s0.days, |dd: Day| dd.meal_id == Some(meal_id));
        let k1 = choose|k: int| 0 <= k < s0.days.len() && s0.days[k] == md[a];
        let k2 = choose|k: int| 0 <= k < s0.days.len() && s0.days[k] == md[b];
        assert(k1 != k2);
    }
    lemma_cross_dis_day(gs, md, d, w);
    assert(dis_of_day(s1, d.id) =~= fresh_dis_for(d.id, gs));
}

/// Inserts one extra shopping item.
pub fn insert_extra_item(db: &mut Database, extra_item_form: ExtraItemForm) -> (r: Result<
    ExtraItem,
    DbError,
>)
    requires
        inv(old(db)@),
    ensures
        inv(final(db)@),
        match r {
            Ok(x) => {
                &&& old(db)@.next_extra_item_id < i32::MAX
                &&& x.id == old(db)@.next_extra_item_id
                &&& x.name == extra_item_form.name
                &&& x.amount == extra_item_form.amount
                &&& x.bought == extra_item_form.bought
                &&& final(db)@ == (StateV {
                    extra_items: old(db)@.extra_items.push(x),
                    next_extra_item_id: old(db)@.next_extra_item_id + 1,
                    ..old(db)@
                })
            },
            Err(e) => {
                &&& e == DbError::Full
                &&& old(db)@.next_extra_item_id == i32::MAX
                &&& final(db)@ == old(db)@
            },
        },
{
    extra_item_form.insert(db)
}

/// Removes one extra shopping item by id.
pub fn delete_extra_item(db: &mut Database, id: i32) -> (r: Result<usize, DbError>)
    requires
        inv(old(db)@),
    ensures
        inv(final(db)@),
        final(db)@ == (StateV {
            extra_items: old(db)@.extra_items.filter(|x: ExtraItem| x.id != id),
            ..old(db)@
        }),
        r matches Ok(count) && count == old(db)@.extra_items.len() - final(db)@.extra_items.len(),
{
    ExtraItem::delete(db, id)
}

/// Every extra shopping item.
pub fn get_extra_items(db: &Database) -> (r: Result<Vec<ExtraItem>, DbError>)
    ensures
        r matches Ok(v) && v@ == db@.extra_items,
{
    ExtraItem::get_all(db)
}

/// Overwrites one extra shopping item, keyed by its id.
pub fn update_extra_item(db: &mut Database, extra_item: ExtraItem) -> (r: Result<
    ExtraItem,
    DbError,
>)
    requires
        inv(old(db)@),
    ensures
        inv(final(db)@),
        match r {
            Ok(x) => {
                &&& x == extra_item
                &&& exists|k: int|
                    0 <= k < old(db)@.extra_items.len() && (#[trigger] old(db)@.extra_items[k]).id
                        == extra_item.id && final(db)@ == (StateV {
                        extra_items: old(db)@.extra_items.update(k, extra_item),
                        ..old(db)@
                    })
            },
            Err(e) => {
                &&& e == DbError::NotFound
                &&& !has_extra_item(old(db)@, extra_item.id)
                &&& final(db)@ == old(db)@
            },
        },
{
    extra_item.update(db)
}

/// The extra shopping item with id `id`.
pub fn get_extra_item(db: &Database, id: i32) -> (r: Result<ExtraItem, DbError>)
    requires
        inv(db@),
    ensures
        match r {
            Ok(x) => has_extra_item(db@, id) && x.id == id && db@.extra_items.contains(x),
            Err(e) => e == DbError::NotFound && !has_extra_item(db@, id),
        },
{
    ExtraItem::get(db, id)
}

} // verus!
