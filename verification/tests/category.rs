use firetrack::category::{
    create, delete, read, Category, CategoryErrorKind, CategoryStore, User,
};
use std::collections::{BTreeMap, HashMap};

// Checks that the given category matches the given values.
fn assert_category(
    // The category to check.
    category: &Category,
    // The expected category ID. If None this will not be checked.
    id: Option<i32>,
    // The expected category name.
    name: &str,
    // The expected description.
    description: Option<&str>,
    // The expected user ID of the category owner.
    user_id: i32,
    // The expected parent category ID.
    parent_id: Option<i32>,
) {
    if let Some(id) = id {
        assert_eq!(id, category.id);
    }
    assert_eq!(name, category.name);
    assert_eq!(description.map(|d| d.to_string()), category.description);
    assert_eq!(user_id, category.user_id);
    assert_eq!(parent_id, category.parent_id);
}

// Checks that the number of categories in the store matches the expected count.
fn assert_category_count(store: &CategoryStore, expected_count: usize) {
    assert_eq!(expected_count, store.count());
}

// Checks that the given error is a CategoryErrorKind::CategoryAlreadyExists error.
fn assert_category_exists_err(error: CategoryErrorKind, name: &str, parent: Option<&Category>) {
    assert_eq!(
        error,
        CategoryErrorKind::CategoryAlreadyExists {
            name: name.to_string(),
            parent: parent.map(|p| p.name.clone())
        }
    );
}

// Tests creation of root level categories.
#[test]
fn test_create_root_category() {
    let mut store = CategoryStore::new();

    // Create two test users that will serve as the owners of the test categories.
    let user1 = User { id: 1 };
    let user2 = User { id: 2 };

    // At the start of the test we should have no categories.
    assert_category_count(&store, 0);

    // Create a root category without a description.
    let name1 = "Housing";
    let rootcat = create(&mut store, &user1, name1, None, None).unwrap();
    assert_category(&rootcat, None, name1, None, user1.id, None);
    assert_category_count(&store, 1);

    // We can create a root category for a different user with the same name.
    let rootcat_user2 = create(&mut store, &user2, name1, None, None).unwrap();
    assert_category(&rootcat_user2, None, name1, None, user2.id, None);
    assert_category_count(&store, 2);

    // We can create a root category with a description.
    let name2 = "Shopping";
    let desc = Some("Clothing, books, hobbies, …");
    let rootcat_desc = create(&mut store, &user1, name2, desc, None).unwrap();
    assert_category(&rootcat_desc, None, name2, desc, user1.id, None);
    assert_category_count(&store, 3);

    // Check that if we try to create a root category with a name that already
    // exists we get an error.
    assert_category_exists_err(
        create(&mut store, &user1, name1, None, None).unwrap_err(),
        name1,
        None,
    );
}

// Tests creation of child categories.
#[test]
fn test_create_child_categories() {
    let mut store = CategoryStore::new();

    // Test cases, keyed by category name, with optional description and parent category.
    let test_cases: BTreeMap<i8, (&str, Option<&str>, Option<i8>)> = [
        (0, ("Food", Some("Root category"), None)),
        (1, ("Groceries", None, Some(0))),
        (2, ("Groceries", Some("Same name as parent"), Some(1))),
        (3, ("Restaurants", Some("Eating out"), Some(0))),
        (4, ("Japanese restaurants", None, Some(3))),
        (5, ("Sushi", Some("Including delivery"), Some(4))),
        (6, ("Conveyor belt sushi", Some("Choo choo"), Some(5))),
    ]
    .iter()
    .cloned()
    .collect();

    // Create two test users that will serve as the owners of the test categories.
    let user1 = User { id: 1 };
    let user2 = User { id: 2 };

    // At the start of the test we should have no categories.
    let mut count: usize = 0;
    assert_category_count(&store, count);

    let mut categories: HashMap<(i8, i32), Category> = HashMap::new();
    for (id, (name, description, parent_id)) in test_cases {
        // Different users should be able to create categories with the same
        // names and the same parent categories. Try creating each category for
        // both test users.
        for u in [&user1, &user2] {
            let parent = parent_id
                .map(|id| categories.get(&(id, u.id)))
                .unwrap_or(None);
            let category = create(&mut store, u, name, description, parent);
            categories.insert((id, u.id), category.unwrap());
            count += 1;
            assert_category_count(&store, count);
        }
    }

    // Check that if we try to create a category with a name that already
    // exists for the parent category we get an error. We are using the "Sushi"
    // case which has "Japanese restaurants" as parent category.
    let parent = categories.get(&(4, user1.id));
    assert_category_exists_err(
        create(&mut store, &user1, "Sushi", None, parent).unwrap_err(),
        "Sushi",
        parent,
    );
}

// Test that an error is returned when creating a category with an empty name.
#[test]
fn test_create_with_empty_category_name() {
    let mut store = CategoryStore::new();

    // Create a test user that will serve as the owner of the test categories.
    let user = User { id: 1 };

    let mut empty_names = vec![
        "".to_string(),         // Empty string.
        " ".to_string(),        // Space.
        "\n".to_string(),       // Line feed.
        "\t".to_string(),       // Horizontal tab.
        '\u{0B}'.to_string(),   // Vertical tab.
        '\u{0C}'.to_string(),   // Form feed.
        '\u{85}'.to_string(),   // Next line.
        '\u{1680}'.to_string(), // Ogham space mark.
        '\u{2002}'.to_string(), // En space.
        '\u{2003}'.to_string(), // Em space.
        '\u{2004}'.to_string(), // Three-per-em space.
        '\u{2005}'.to_string(), // Four-per-em space.
        '\u{2006}'.to_string(), // Six-per-em space.
        '\u{2007}'.to_string(), // Figure space.
        '\u{2008}'.to_string(), // Punctuation space.
        '\u{2009}'.to_string(), // Thin space.
        '\u{200A}'.to_string(), // Hair space.
        '\u{2028}'.to_string(), // Line separator.
        '\u{2029}'.to_string(), // Paragraph separator.
        '\u{202F}'.to_string(), // Narrow no-break space.
        '\u{205F}'.to_string(), // Medium mathematical space.
        '\u{3000}'.to_string(), // Ideographic space.
    ];

    // Also test a combination of various whitespace characters.
    empty_names.push(format!(" \n\t{}{}{}", '\u{1680}', '\u{2005}', '\u{2028}'));

    for empty_name in empty_names {
        let created_category = create(&mut store, &user, &empty_name, None, None).unwrap_err();
        assert_eq!(
            CategoryErrorKind::MissingData("category name".to_string()),
            created_category
        );
    }
}

// Test that an error is returned when passing in a parent category from a different user.
#[test]
fn test_create_with_invalid_parent_category() {
    let mut store = CategoryStore::new();

    // Create a test user that will serve as the owner of the test category.
    let user = User { id: 1 };

    // Create a different user that owns some other category.
    let other_user = User { id: 2 };

    // Try creating a new category that has a parent category belonging to a
    // different user. This should result in an error.
    let other_user_cat = create(&mut store, &other_user, "Utilities", None, None).unwrap();
    let cat = create(
        &mut store,
        &user,
        "Telecommunication",
        Some("Internet and telephone"),
        Some(&other_user_cat),
    )
    .unwrap_err();

    assert_eq!(
        CategoryErrorKind::ParentCategoryHasWrongUser(user.id, other_user.id),
        cat
    );

    // No row was inserted.
    assert_category_count(&store, 1);
}

// Tests read().
#[test]
fn test_read() {
    let mut store = CategoryStore::new();

    // When no category with the given ID exists, `None` should be returned.
    assert!(read(&store, 1).is_none());

    // Create a root category and assert that the `read()` function returns it.
    let user = User { id: 1 };
    let name = "Groceries";
    let result = create(&mut store, &user, name, None, None).unwrap();
    let cat = read(&store, result.id).unwrap();
    assert_category(&cat, Some(result.id), name, None, user.id, None);

    // Delete the category. Now the `read()` function should return `None` again.
    assert!(delete(&mut store, cat.id).is_ok());
    assert!(read(&store, cat.id).is_none());
}

// Tests delete().
#[test]
fn test_delete() {
    let mut store = CategoryStore::new();

    // Initially there should not be any categories.
    assert_category_count(&store, 0);

    // Create a root category. Now there should be one category.
    let user = User { id: 1 };
    let name = "Healthcare";
    let cat = create(&mut store, &user, name, None, None).unwrap();
    assert_category_count(&store, 1);

    // Delete the category. This should not result in any errors, and there
    // should again be 0 categories in the store.
    assert!(delete(&mut store, cat.id).is_ok());
    assert_category_count(&store, 0);

    // Try deleting the category again.
    let result = delete(&mut store, cat.id);
    assert!(result.is_err());
    assert_eq!(CategoryErrorKind::NotDeleted(cat.id), result.unwrap_err());
}

// Tests that a category which has a child category cannot be deleted.
#[test]
fn test_delete_with_child() {
    let mut store = CategoryStore::new();

    // Create a root category.
    let user = User { id: 1 };
    let name = "Lifestyle";
    let parent_cat = create(&mut store, &user, name, None, None).unwrap();

    // Create a child category.
    let child_name = "Haircuts";
    create(&mut store, &user, child_name, None, Some(&parent_cat)).unwrap();

    // Try to delete the parent category. This should result in an error.
    let result = delete(&mut store, parent_cat.id);
    assert!(result.is_err());
    assert_eq!(
        CategoryErrorKind::HasChildren(parent_cat.id),
        result.unwrap_err()
    );

    // The parent category still exists afterwards.
    assert!(read(&store, parent_cat.id).is_some());
}
