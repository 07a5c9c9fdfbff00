use dinner_planner::api::{
    create_meal_with_ingredients, days_for_week, delete_meal, get_all_meals_with_ingredients,
    get_extra_items, get_meal, get_meals_ordered, udpate_day_ingredient, update_meal_with_ingredients,
    upsert_day,
};
use dinner_planner::date::Date;
use dinner_planner::models::{
    DayForm, DayIngredient, DbError, ExtraItemForm, IngredientForm, MealForm,
};
use dinner_planner::store::Database;
use dinner_planner::week::Week;

fn meal_form(name: &str) -> MealForm {
    MealForm {
        name: String::from(name),
        image: String::new(),
        recipie_url: None,
    }
}

fn ing_form(name: &str, amount: i32) -> IngredientForm {
    IngredientForm {
        name: String::from(name),
        amount,
        meal_id: 0,
    }
}

#[test]
fn week_assembly_creates_exactly_seven_days() {
    // Week 1 of the year right after a 53-week year: 2020 has 53 ISO
    // weeks, so this must still produce seven distinct consecutive dates.
    let mut db = Database::new();
    let week = Week::new(1, 2021);
    let view = days_for_week(&mut db, week).unwrap();
    assert_eq!(view.len(), 7);
    for (j, entry) in view.iter().enumerate() {
        let (y, m, d) = entry.day.date.to_ymd();
        assert_eq!((y, m, d), (2021, 1, 4 + j as u32));
        assert_eq!(entry.day.week, 1);
        assert_eq!(entry.day.year, 2021);
        assert!(entry.day.meal_id.is_none());
        assert!(entry.meal.is_none());
    }
}

#[test]
fn week_assembly_is_idempotent() {
    let mut db = Database::new();
    let week = Week::new(10, 2024);
    let first = days_for_week(&mut db, week).unwrap();
    let second = days_for_week(&mut db, week).unwrap();
    assert_eq!(first, second);
    let third = days_for_week(&mut db, week).unwrap();
    assert_eq!(first, third);
    // No duplicate rows were created by either call.
    assert_eq!(
        dinner_planner::models::Day::get_all(&db).unwrap().len(),
        7
    );
}

#[test]
fn week_assembly_straddling_weeks_coexist() {
    // Weeks 52/2020 (ending Jan 3 2021) and 1/2021 (starting Jan 4) --
    // assembling both must create 14 distinct dates in total.
    let mut db = Database::new();
    days_for_week(&mut db, Week::new(53, 2020)).unwrap();
    days_for_week(&mut db, Week::new(1, 2021)).unwrap();
    assert_eq!(
        dinner_planner::models::Day::get_all(&db).unwrap().len(),
        14
    );
}

#[test]
fn assigning_meal_creates_unbought_rows() {
    let mut db = Database::new();
    let mwi = create_meal_with_ingredients(
        &mut db,
        meal_form("soup"),
        vec![ing_form("carrot", 3), ing_form("onion", 2)],
    )
    .unwrap();
    let date = Date::from_ymd(2024, 3, 11).unwrap();
    let dwi = upsert_day(
        &mut db,
        DayForm {
            date,
            meal_id: Some(mwi.meal.id),
            week: 11,
            year: 2024,
        },
    )
    .unwrap();
    let (meal, iwbs) = dwi.meal.as_ref().unwrap();
    assert_eq!(meal.id, mwi.meal.id);
    assert_eq!(iwbs.len(), 2);
    for (i, iwb) in iwbs.iter().enumerate() {
        assert_eq!(iwb.day_id, dwi.day.id);
        assert_eq!(iwb.ingredient, mwi.ingredients[i]);
        assert!(!iwb.bought);
    }
    // Re-fetch through week assembly: the same rows come back.
    let view = days_for_week(&mut db, Week::new(11, 2024)).unwrap();
    let entry = view.iter().find(|e| e.day.id == dwi.day.id).unwrap();
    let (_, fetched) = entry.meal.as_ref().map(|(m, v)| (m, v)).unwrap();
    assert_eq!(fetched.len(), 2);
    assert!(fetched.iter().all(|iwb| !iwb.bought));
}

#[test]
fn reassigning_same_meal_resets_bought_flags() {
    let mut db = Database::new();
    let mwi = create_meal_with_ingredients(
        &mut db,
        meal_form("stew"),
        vec![ing_form("potato", 5)],
    )
    .unwrap();
    let date = Date::from_ymd(2024, 3, 12).unwrap();
    let form = DayForm {
        date,
        meal_id: Some(mwi.meal.id),
        week: 11,
        year: 2024,
    };
    let dwi = upsert_day(&mut db, form.clone()).unwrap();
    let ing_id = mwi.ingredients[0].id;
    udpate_day_ingredient(
        &mut db,
        DayIngredient {
            day_id: dwi.day.id,
            ingredient_id: ing_id,
            bought: true,
        },
    )
    .unwrap();
    let again = upsert_day(&mut db, form).unwrap();
    assert_eq!(again.day.id, dwi.day.id);
    let (_, iwbs) = again.meal.as_ref().unwrap();
    assert!(iwbs.iter().all(|iwb| !iwb.bought));
}

#[test]
fn toggling_one_flag_leaves_others_alone() {
    let mut db = Database::new();
    let mwi = create_meal_with_ingredients(
        &mut db,
        meal_form("salad"),
        vec![ing_form("lettuce", 1), ing_form("tomato", 4)],
    )
    .unwrap();
    let date = Date::from_ymd(2024, 3, 13).unwrap();
    let dwi = upsert_day(
        &mut db,
        DayForm {
            date,
            meal_id: Some(mwi.meal.id),
            week: 11,
            year: 2024,
        },
    )
    .unwrap();
    let target = mwi.ingredients[0].id;
    let other = mwi.ingredients[1].id;
    udpate_day_ingredient(
        &mut db,
        DayIngredient {
            day_id: dwi.day.id,
            ingredient_id: target,
            bought: true,
        },
    )
    .unwrap();
    let rows = dinner_planner::models::DayIngredient::get_all(&db).unwrap();
    let t = rows
        .iter()
        .find(|r| r.ingredient_id == target && r.day_id == dwi.day.id)
        .unwrap();
    let o = rows
        .iter()
        .find(|r| r.ingredient_id == other && r.day_id == dwi.day.id)
        .unwrap();
    assert!(t.bought);
    assert!(!o.bought);
    // Toggling with a dead ingredient reference is refused.
    let r = udpate_day_ingredient(
        &mut db,
        DayIngredient {
            day_id: dwi.day.id,
            ingredient_id: 999,
            bought: true,
        },
    );
    assert_eq!(r.unwrap_err(), DbError::ForeignKeyViolation);
}

#[test]
fn toggle_upserts_missing_row_and_is_idempotent() {
    // The toggle is an upsert keyed by the (day, ingredient) pair: a
    // missing row is inserted with the given flag, and repeating the
    // same write changes nothing further.
    let mut db = Database::new();
    let mwi =
        create_meal_with_ingredients(&mut db, meal_form("toast"), vec![ing_form("bread", 1)])
            .unwrap();
    let date = Date::from_ymd(2024, 3, 19).unwrap();
    // A day with no meal assigned has no shopping rows at all.
    let dwi = upsert_day(
        &mut db,
        DayForm {
            date,
            meal_id: None,
            week: 12,
            year: 2024,
        },
    )
    .unwrap();
    assert_eq!(dinner_planner::models::DayIngredient::get_all(&db).unwrap().len(), 0);
    let row = DayIngredient {
        day_id: dwi.day.id,
        ingredient_id: mwi.ingredients[0].id,
        bought: true,
    };
    let written = udpate_day_ingredient(&mut db, row).unwrap();
    assert_eq!(written, row);
    let rows = dinner_planner::models::DayIngredient::get_all(&db).unwrap();
    assert_eq!(rows, vec![row]);
    // Writing the same value again leaves the same single row.
    udpate_day_ingredient(&mut db, row).unwrap();
    let rows = dinner_planner::models::DayIngredient::get_all(&db).unwrap();
    assert_eq!(rows, vec![row]);
    // And the flag can be overwritten in place.
    let cleared = DayIngredient { bought: false, ..row };
    udpate_day_ingredient(&mut db, cleared).unwrap();
    let rows = dinner_planner::models::DayIngredient::get_all(&db).unwrap();
    assert_eq!(rows, vec![cleared]);
}

#[test]
fn editing_meal_updates_assigned_days() {
    let mut db = Database::new();
    let mwi = create_meal_with_ingredients(
        &mut db,
        meal_form("pasta"),
        vec![ing_form("spaghetti", 1), ing_form("basil", 2)],
    )
    .unwrap();
    let date = Date::from_ymd(2024, 3, 14).unwrap();
    let dwi = upsert_day(
        &mut db,
        DayForm {
            date,
            meal_id: Some(mwi.meal.id),
            week: 11,
            year: 2024,
        },
    )
    .unwrap();
    // Replace the list: drop basil, keep spaghetti, add parmesan.
    let updated = update_meal_with_ingredients(
        &mut db,
        mwi.meal,
        vec![ing_form("spaghetti", 1), ing_form("parmesan", 1)],
    )
    .unwrap();
    assert_eq!(updated.ingredients.len(), 2);
    let rows = dinner_planner::models::DayIngredient::get_all(&db).unwrap();
    let day_rows: Vec<_> = rows.iter().filter(|r| r.day_id == dwi.day.id).collect();
    assert_eq!(day_rows.len(), 2);
    let new_ids: Vec<i32> = updated.ingredients.iter().map(|g| g.id).collect();
    for row in day_rows {
        assert!(new_ids.contains(&row.ingredient_id));
        assert!(!row.bought);
    }
    let fetched = get_meal(&db, updated.meal.id).unwrap();
    let names: Vec<&str> = fetched.ingredients.iter().map(|g| g.name.as_str()).collect();
    assert_eq!(names, vec!["spaghetti", "parmesan"]);
}

#[test]
fn deleting_assigned_meal_is_refused() {
    let mut db = Database::new();
    let mwi = create_meal_with_ingredients(&mut db, meal_form("pizza"), vec![]).unwrap();
    let date = Date::from_ymd(2024, 3, 15).unwrap();
    upsert_day(
        &mut db,
        DayForm {
            date,
            meal_id: Some(mwi.meal.id),
            week: 11,
            year: 2024,
        },
    )
    .unwrap();
    let r = delete_meal(&mut db, mwi.meal.id);
    assert!(matches!(r, Err(e) if e.message() == "FOREIGN KEY constraint failed"));
    // Unassign the day, then the delete goes through.
    upsert_day(
        &mut db,
        DayForm {
            date,
            meal_id: None,
            week: 11,
            year: 2024,
        },
    )
    .unwrap();
    assert_eq!(delete_meal(&mut db, mwi.meal.id).unwrap(), 1);
    assert_eq!(delete_meal(&mut db, mwi.meal.id).unwrap(), 0);
}

#[test]
fn duplicate_day_ingredient_is_refused() {
    let mut db = Database::new();
    let mwi =
        create_meal_with_ingredients(&mut db, meal_form("rice"), vec![ing_form("rice", 1)])
            .unwrap();
    let date = Date::from_ymd(2024, 3, 16).unwrap();
    let dwi = upsert_day(
        &mut db,
        DayForm {
            date,
            meal_id: Some(mwi.meal.id),
            week: 11,
            year: 2024,
        },
    )
    .unwrap();
    let row = DayIngredient {
        day_id: dwi.day.id,
        ingredient_id: mwi.ingredients[0].id,
        bought: false,
    };
    let r = dinner_planner::api::insert_day_ingredient(&mut db, row);
    assert!(matches!(r, Err(e) if e.message() == "UNIQUE constraint failed"));
}

#[test]
fn missing_meal_lookup_is_refused() {
    let db = Database::new();
    assert_eq!(get_meal(&db, 5).unwrap_err(), DbError::NotFound);
    assert_eq!(get_meal(&db, 5).unwrap_err().message(), "record not found");
}

#[test]
fn meals_come_back_in_case_blind_name_order() {
    let mut db = Database::new();
    for name in ["banana bread", "Apple pie", "cherry cake"] {
        meal_form(name).insert(&mut db).unwrap();
    }
    let ordered = get_meals_ordered(&db).unwrap();
    let names: Vec<&str> = ordered.iter().map(|m| m.name.as_str()).collect();
    assert_eq!(names, vec!["Apple pie", "banana bread", "cherry cake"]);
    let all = get_all_meals_with_ingredients(&db).unwrap();
    let names2: Vec<&str> = all.iter().map(|m| m.meal.name.as_str()).collect();
    assert_eq!(names2, vec!["Apple pie", "banana bread", "cherry cake"]);
}

#[test]
fn extra_items_unbought_filter() {
    let mut db = Database::new();
    let a = ExtraItemForm {
        name: String::from("batteries"),
        amount: 2,
        bought: false,
    }
    .insert(&mut db)
    .unwrap();
    let b = ExtraItemForm {
        name: String::from("soap"),
        amount: 1,
        bought: true,
    }
    .insert(&mut db)
    .unwrap();
    assert_eq!(get_extra_items(&db).unwrap().len(), 2);
    let unbought = dinner_planner::models::ExtraItem::get_all_not_bought(&db).unwrap();
    assert_eq!(unbought.len(), 1);
    assert_eq!(unbought[0].id, a.id);
    assert_ne!(unbought[0].id, b.id);
}

#[test]
fn attendance_survives_reassignment() {
    let mut db = Database::new();
    let mwi = create_meal_with_ingredients(&mut db, meal_form("curry"), vec![]).unwrap();
    let date = Date::from_ymd(2024, 3, 18).unwrap();
    let form = DayForm {
        date,
        meal_id: None,
        week: 12,
        year: 2024,
    };
    let day = upsert_day(&mut db, form).unwrap().day;
    assert!(!day.anders_attend && !day.ac_attend && !day.andreas_attend);
    let day = dinner_planner::api::update_attendance_for_day(&mut db, day.id, true, false, true)
        .unwrap();
    assert!(day.anders_attend && !day.ac_attend && day.andreas_attend);
    // The upsert write path keeps the id and the attendance flags.
    let again = upsert_day(
        &mut db,
        DayForm {
            date,
            meal_id: Some(mwi.meal.id),
            week: 12,
            year: 2024,
        },
    )
    .unwrap()
    .day;
    assert_eq!(again.id, day.id);
    assert_eq!(again.meal_id, Some(mwi.meal.id));
    assert!(again.anders_attend && !again.ac_attend && again.andreas_attend);
}

#[test]
fn week_assembly_rejects_invalid_week() {
    let mut db = Database::new();
    let r = days_for_week(&mut db, Week::new(60, 2024));
    assert!(matches!(r, Err(e) if e.message() == "inconsistent query result"));
    // Nothing was created by the failed assembly.
    assert_eq!(dinner_planner::models::Day::get_all(&db).unwrap().len(), 0);
}
