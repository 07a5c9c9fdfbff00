//! The planner's records: meals, their ingredients, days, per-day
//! ingredient shopping state, one-off extra items, and the error type the
//! store reports.

use vstd::prelude::*;

use crate::date::Date;

verus! {

/// Why a store operation was refused.
#[derive(Clone, Copy, PartialEq, Eq, Structural, Debug)]
pub enum DbError {
    /// A written row referenced a key that no row holds.
    ForeignKeyViolation,
    /// An inserted row repeated a key that must be unique.
    UniqueViolation,
    /// A point lookup or update found no row for its key.
    NotFound,
    /// The store cannot allocate further row ids.
    Full,
    /// A consistency check failed: the store answered with an impossible
    /// shape (week assembly not yielding exactly seven days).
    Inconsistent,
}

impl DbError {
    /// The description shown to the caller.
    pub fn message(&self) -> (r: &'static str)
        ensures
            r@ == match self {
                DbError::ForeignKeyViolation => "FOREIGN KEY constraint failed"@,
                DbError::UniqueViolation => "UNIQUE constraint failed"@,
                DbError::NotFound => "record not found"@,
                DbError::Full => "no row id left"@,
                DbError::Inconsistent => "inconsistent query result"@,
            },
    {
        match self {
            DbError::ForeignKeyViolation => "FOREIGN KEY constraint failed",
            DbError::UniqueViolation => "UNIQUE constraint failed",
            DbError::NotFound => "record not found",
            DbError::Full => "no row id left",
            DbError::Inconsistent => "inconsistent query result",
        }
    }
}

/// The writable fields of a day: the single write path both for assigning
/// a meal to an unscheduled day and for changing an assignment.
#[derive(Clone, Copy, PartialEq, Eq, Structural, Debug)]
pub struct DayForm {
    pub date: Date,
    pub meal_id: Option<i32>,
    pub week: i32,
    pub year: i32,
}

/// One day of a week: at most one per calendar date.
#[derive(Clone, Copy, PartialEq, Eq, Structural, Debug)]
pub struct Day {
    pub id: i32,
    pub date: Date,
    pub meal_id: Option<i32>,
    pub week: i32,
    pub year: i32,
    pub anders_attend: bool,
    pub ac_attend: bool,
    pub andreas_attend: bool,
}

/// The writable fields of a meal.
#[derive(PartialEq, Debug)]
pub struct MealForm {
    pub name: String,
    pub image: String,
    pub recipie_url: Option<String>,
}

impl Clone for MealForm {
    fn clone(&self) -> (r: Self)
        ensures
            r == *self,
    {
        MealForm {
            name: self.name.clone(),
            image: self.image.clone(),
            recipie_url: match &self.recipie_url {
                Some(u) => Some(u.clone()),
                None => None,
            },
        }
    }
}

/// A meal, owning zero or more ingredients.
#[derive(PartialEq, Debug)]
pub struct Meal {
    pub id: i32,
    pub name: String,
    pub image: String,
    pub recipie_url: Option<String>,
}

impl Clone for Meal {
    fn clone(&self) -> (r: Self)
        ensures
            r == *self,
    {
        Meal {
            id: self.id,
            name: self.name.clone(),
            image: self.image.clone(),
            recipie_url: match &self.recipie_url {
                Some(u) => Some(u.clone()),
                None => None,
            },
        }
    }
}

/// The writable fields of an ingredient.
#[derive(PartialEq, Debug)]
pub struct IngredientForm {
    pub name: String,
    pub amount: i32,
    pub meal_id: i32,
}

impl Clone for IngredientForm {
    fn clone(&self) -> (r: Self)
        ensures
            r == *self,
    {
        IngredientForm { name: self.name.clone(), amount: self.amount, meal_id: self.meal_id }
    }
}

/// An ingredient of exactly one meal.
#[derive(PartialEq, Debug)]
pub struct Ingredient {
    pub id: i32,
    pub name: String,
    pub amount: i32,
    pub meal_id: i32,
}

impl Clone for Ingredient {
    fn clone(&self) -> (r: Self)
        ensures
            r == *self,
    {
        Ingredient {
            id: self.id,
            name: self.name.clone(),
            amount: self.amount,
            meal_id: self.meal_id,
        }
    }
}

/// The shopping state of one ingredient on one day; at most one row per
/// (day, ingredient) pair.
#[derive(Clone, Copy, PartialEq, Eq, Structural, Debug)]
pub struct DayIngredient {
    pub day_id: i32,
    pub ingredient_id: i32,
    pub bought: bool,
}

/// The writable fields of a one-off shopping item.
#[derive(PartialEq, Debug)]
pub struct ExtraItemForm {
    pub name: String,
    pub amount: i32,
    pub bought: bool,
}

impl Clone for ExtraItemForm {
    fn clone(&self) -> (r: Self)
        ensures
            r == *self,
    {
        ExtraItemForm { name: self.name.clone(), amount: self.amount, bought: self.bought }
    }
}

/// A one-off shopping item, independent of days and meals.
#[derive(PartialEq, Debug)]
pub struct ExtraItem {
    pub id: i32,
    pub name: String,
    pub amount: i32,
    pub bought: bool,
}

impl Clone for ExtraItem {
    fn clone(&self) -> (r: Self)
        ensures
            r == *self,
    {
        ExtraItem {
            id: self.id,
            name: self.name.clone(),
            amount: self.amount,
            bought: self.bought,
        }
    }
}

/// A meal together with its ingredient list.
#[derive(PartialEq, Debug)]
pub struct MealWithIngredients {
    pub meal: Meal,
    pub ingredients: Vec<Ingredient>,
}

/// One ingredient of a day's meal, with that day's bought flag.
#[derive(PartialEq, Debug)]
pub struct IngredientWithBought {
    pub day_id: i32,
    pub ingredient: Ingredient,
    pub bought: bool,
}

impl Clone for IngredientWithBought {
    fn clone(&self) -> (r: Self)
        ensures
            r == *self,
    {
        IngredientWithBought {
            day_id: self.day_id,
            ingredient: self.ingredient.clone(),
            bought: self.bought,
        }
    }
}

/// A day's projection in a week view: the day row and, when a meal is
/// assigned, the meal with its per-day ingredient shopping state.
#[derive(PartialEq, Debug)]
pub struct DayWithMealAndIngredients {
    pub day: Day,
    pub meal: Option<(Meal, Vec<IngredientWithBought>)>,
}

} // verus!
