use chrono::Datelike;
use dinner_planner::date::Date;
use dinner_planner::models::{
    Day, DayForm, DayIngredient, ExtraItem, ExtraItemForm, Ingredient, IngredientForm, Meal,
    MealForm,
};
use dinner_planner::store::Database;
use dinner_planner::week::Week;

fn today() -> (Date, i32, u32) {
    let now = chrono::Local::now().date_naive();
    let date = Date::from_ymd(now.year(), now.month(), now.day()).unwrap();
    (date, now.year(), now.iso_week().week())
}

#[test]
fn day_test_foreign_key_restraint() {
    let mut db = Database::new();
    let (date, year, week) = today();
    let r = DayForm { date, meal_id: Some(1), week: week as i32, year }.upsert(&mut db);
    assert!(matches!(r, Err(e) if e.message() == "FOREIGN KEY constraint failed"));
}

#[test]
fn test_get_days_for_meal() {
    let mut db = Database::new();
    let (date, year, week) = today();
    let meal = MealForm {
        image: String::new(),
        name: String::new(),
        recipie_url: None,
    }
    .insert(&mut db)
    .unwrap();
    let day = DayForm { date, meal_id: Some(meal.id), week: week as i32, year }
        .upsert(&mut db)
        .unwrap();
    assert_eq!(vec![day.clone()], Day::get_for_meal(&db, meal.id).unwrap());
    assert_eq!(0, Day::get_for_meal(&db, 99).unwrap().len());
}

#[test]
fn test_get_day() {
    let mut db = Database::new();
    let (date, year, week) = today();
    let day = DayForm { date, meal_id: None, week: week as i32, year }
        .upsert(&mut db)
        .unwrap();
    assert_eq!(day, Day::get(&db, day.id).unwrap());
}

#[test]
fn test_usert_day() {
    let mut db = Database::new();
    let week = Week::current();
    let dates = week.dates();
    assert_eq!(dates.len(), 7);
    for day in dates.iter() {
        let wy = Week::of_date(*day);
        let (cy, _, _) = day.to_ymd();
        DayForm {
            date: *day,
            meal_id: None,
            week: wy.week as i32,
            year: cy,
        }
        .upsert(&mut db)
        .unwrap();
    }
    let days = Day::get_all(&db).unwrap();
    assert_eq!(days.len(), 7);
    for (i, day) in days.iter().enumerate() {
        let wy = Week::of_date(dates[i]);
        let (cy, _, _) = dates[i].to_ymd();
        assert_eq!(day.date, dates[i]);
        assert_eq!(day.week, wy.week as i32);
        assert_eq!(day.year, cy);
        assert_eq!(day.meal_id, None);
    }

    for (i, day) in dates.iter().enumerate() {
        let wy = Week::of_date(*day);
        let (cy, _, _) = day.to_ymd();
        DayForm {
            date: *day,
            meal_id: None,
            week: wy.week as i32 + i as i32,
            year: cy + i as i32,
        }
        .upsert(&mut db)
        .unwrap();
    }
    let days = Day::get_all(&db).unwrap();
    assert_eq!(days.len(), 7);
    for (i, day) in days.iter().enumerate() {
        let wy = Week::of_date(dates[i]);
        let (cy, _, _) = dates[i].to_ymd();
        assert_eq!(day.date, dates[i]);
        assert_eq!(day.meal_id, None);
        assert_eq!(day.week, wy.week as i32 + i as i32);
        assert_eq!(day.year, cy + i as i32);
    }
}

#[test]
fn days_ingredients_test_foreign_key_restraint() {
    let mut db = Database::new();
    let r = DayIngredient {
        day_id: 1,
        ingredient_id: 1,
        bought: false,
    }
    .insert(&mut db);
    assert!(matches!(r, Err(e) if e.message() == "FOREIGN KEY constraint failed"));
}

#[test]
fn test_day_ingredient_insert_update_delete() {
    let mut db = Database::new();
    let (date, year, week) = today();
    let day_id = DayForm { date, meal_id: None, week: week as i32, year }
        .upsert(&mut db)
        .unwrap()
        .id;
    let meal_id = MealForm {
        name: String::new(),
        image: String::new(),
        recipie_url: None,
    }
    .insert(&mut db)
    .unwrap()
    .id;
    let ingredient_id = IngredientForm {
        amount: 0,
        name: String::new(),
        meal_id,
    }
    .insert(&mut db)
    .unwrap()
    .id;
    let mut di = DayIngredient {
        day_id,
        ingredient_id,
        bought: false,
    }
    .insert(&mut db)
    .unwrap();
    let ingredient_id = IngredientForm {
        amount: 0,
        name: String::new(),
        meal_id,
    }
    .insert(&mut db)
    .unwrap()
    .id;
    let other_di = DayIngredient {
        day_id,
        ingredient_id,
        bought: false,
    }
    .insert(&mut db)
    .unwrap();

    di.bought = true;
    let di = di.update(&mut db).unwrap();

    assert_eq!(di.bought, true);
    assert_eq!(other_di.bought, false);

    assert_eq!(DayIngredient::get_all(&db).unwrap().len(), 2);

    DayIngredient::delete_for_day(&mut db, day_id).unwrap();

    assert_eq!(DayIngredient::get_all(&db).unwrap().len(), 0);
}

#[test]
fn extra_items_test_extra_items_all() {
    let mut db = Database::new();
    let mut extra_item = ExtraItemForm {
        amount: 0,
        bought: false,
        name: String::new(),
    }
    .insert(&mut db)
    .unwrap();

    let extra_item_other = ExtraItemForm {
        amount: 0,
        bought: false,
        name: String::new(),
    }
    .insert(&mut db)
    .unwrap();

    assert_eq!(ExtraItem::get_all(&db).unwrap().len(), 2);
    assert_eq!(extra_item, ExtraItem::get(&db, extra_item.id).unwrap());
    extra_item.bought = true;
    let extra_item = extra_item.update(&mut db).unwrap();
    assert_ne!(
        ExtraItem::get(&db, extra_item.id).unwrap().bought,
        ExtraItem::get(&db, extra_item_other.id).unwrap().bought
    );
    ExtraItem::delete(&mut db, extra_item_other.id).unwrap();
    assert_eq!(ExtraItem::get_all(&db).unwrap().len(), 1);
    assert_eq!(ExtraItem::get_all(&db).unwrap(), vec![extra_item]);
}

#[test]
fn ingredient_test_foreign_key_restraint() {
    let mut db = Database::new();
    let r = IngredientForm {
        amount: 0,
        meal_id: 0,
        name: String::new(),
    }
    .insert(&mut db);
    assert!(matches!(r, Err(e) if e.message() == "FOREIGN KEY constraint failed"));
}

#[test]
fn ingredient_test_extra_items_all() {
    let mut db = Database::new();
    let meal_id = MealForm {
        name: String::new(),
        image: String::new(),
        recipie_url: None,
    }
    .insert(&mut db)
    .unwrap()
    .id;
    let meal_id_other = MealForm {
        name: String::new(),
        image: String::new(),
        recipie_url: None,
    }
    .insert(&mut db)
    .unwrap()
    .id;

    let ingredient = IngredientForm {
        amount: 0,
        meal_id,
        name: String::new(),
    }
    .insert(&mut db)
    .unwrap();

    let ingredient_other = IngredientForm {
        amount: 1,
        meal_id: meal_id_other,
        name: String::new(),
    }
    .insert(&mut db)
    .unwrap();

    assert_eq!(Ingredient::get_all(&db).unwrap().len(), 2);
    assert_eq!(ingredient, Ingredient::get(&db, ingredient.id).unwrap());
    assert_eq!(
        vec![ingredient.clone()],
        Ingredient::get_for_meal(&db, meal_id).unwrap()
    );
    assert_ne!(
        Ingredient::get(&db, ingredient.id).unwrap().amount,
        Ingredient::get(&db, ingredient_other.id).unwrap().amount
    );
    Ingredient::delete_for_meal(&mut db, meal_id_other).unwrap();
    assert_eq!(Ingredient::get_all(&db).unwrap().len(), 1);
    assert_eq!(Ingredient::get_all(&db).unwrap(), vec![ingredient]);
}

#[test]
fn test_meals_all() {
    let mut db = Database::new();
    let mut meal = MealForm {
        name: String::new(),
        image: String::new(),
        recipie_url: Some(String::from("https://example.com")),
    }
    .insert(&mut db)
    .unwrap();
    let meal_other = MealForm {
        name: String::new(),
        image: String::new(),
        recipie_url: Some(String::from("https://example.com")),
    }
    .insert(&mut db)
    .unwrap();

    assert_eq!(Meal::get_all(&db).unwrap().len(), 2);
    assert_eq!(meal, Meal::get(&db, meal.id).unwrap());
    meal.recipie_url = None;
    let meal = meal.update(&mut db).unwrap();
    assert_ne!(
        Meal::get(&db, meal.id).unwrap().recipie_url,
        Meal::get(&db, meal_other.id).unwrap().recipie_url
    );
    Meal::delete(&mut db, meal_other.id).unwrap();
    assert_eq!(Meal::get_all(&db).unwrap().len(), 1);
    assert_eq!(Meal::get_all(&db).unwrap(), vec![meal]);
}
