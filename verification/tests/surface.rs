use task_forest::schema::ApiError;
use task_forest::schema::Mutation;
use task_forest::schema::Query;
use task_forest::schema::TaskMutation;
use task_forest::schema::TaskQuery;
use task_forest::task::TaskStore;

const NIL_ID: &str = "00000000-0000-0000-0000-000000000000";

#[test]
fn roots_returns_what_was_created() {
    let mut store = TaskStore::new();
    let a = TaskMutation::create(
        &mut store,
        String::from("title1"),
        Some(String::from("description")),
        None,
    )
    .unwrap();
    let b = TaskMutation::create(&mut store, String::from("title2"), None, None).unwrap();

    let roots = TaskQuery::roots(&store);
    assert_eq!(roots.len(), 2);
    assert_eq!(roots[0].id(), a.id());
    assert_eq!(roots[0].title(), &String::from("title1"));
    assert_eq!(roots[0].description(), &Some(String::from("description")));
    assert_eq!(roots[1].id(), b.id());
    assert_eq!(roots[1].title(), &String::from("title2"));
    assert_eq!(roots[1].description(), &None);
}

#[test]
fn child_is_listed_under_its_parent() {
    let mut store = TaskStore::new();
    let a = TaskMutation::create(&mut store, String::from("title1"), None, None).unwrap();
    let b = TaskMutation::create(
        &mut store,
        String::from("title2"),
        None,
        Some(a.id_string()),
    )
    .unwrap();

    let children = a.children(&store);
    assert_eq!(children.len(), 1);
    assert_eq!(children[0].id(), b.id());
    assert_eq!(children[0].title(), b.title());

    let parent = b.parent(&store).unwrap();
    assert_eq!(parent.id(), a.id());
    assert_eq!(parent.title(), a.title());
    assert_eq!(parent.description(), a.description());

    let roots = TaskQuery::roots(&store);
    assert_eq!(roots.len(), 1);
    assert_eq!(roots[0].id(), a.id());
}

#[test]
fn one_rejects_a_malformed_identifier() {
    let store = TaskStore::new();
    match TaskQuery::one(&store, String::from("not-a-real-id-format")) {
        Err(ApiError::InvalidId(s)) => assert_eq!(s, "not-a-real-id-format"),
        _ => panic!("expected a typed invalid-identifier error"),
    }
}

#[test]
fn one_reports_an_absent_identifier() {
    let store = TaskStore::new();
    match TaskQuery::one(&store, String::from(NIL_ID)) {
        Err(ApiError::NotFound(s)) => assert_eq!(s, NIL_ID),
        _ => panic!("expected a typed not-found error"),
    }
}

#[test]
fn one_finds_a_created_task_by_its_text() {
    let mut store = TaskStore::new();
    let a = TaskMutation::create(
        &mut store,
        String::from("title1"),
        Some(String::from("description")),
        None,
    )
    .unwrap();

    let found = TaskQuery::one(&store, a.id_string()).unwrap();
    assert_eq!(found.id(), a.id());
    assert_eq!(found.title(), &String::from("title1"));
    assert_eq!(found.description(), &Some(String::from("description")));
}

#[test]
fn delete_of_a_nonexistent_identifier_returns_false() {
    let mut store = TaskStore::new();
    let result = TaskMutation::delete(&mut store, String::from(NIL_ID));
    assert!(matches!(result, Ok(false)));
    assert_eq!(TaskQuery::roots(&store).len(), 0);
}

#[test]
fn delete_of_an_existing_task_returns_true() {
    let mut store = TaskStore::new();
    let a = TaskMutation::create(&mut store, String::from("title1"), None, None).unwrap();

    let result = TaskMutation::delete(&mut store, a.id_string());
    assert!(matches!(result, Ok(true)));
    assert_eq!(store.count_with_id(a.id()), 0);

    let again = TaskMutation::delete(&mut store, a.id_string());
    assert!(matches!(again, Ok(false)));
}

#[test]
fn delete_rejects_a_malformed_identifier() {
    let mut store = TaskStore::new();
    TaskMutation::create(&mut store, String::from("title1"), None, None).unwrap();

    match TaskMutation::delete(&mut store, String::from("not-a-real-id-format")) {
        Err(ApiError::InvalidId(s)) => assert_eq!(s, "not-a-real-id-format"),
        _ => panic!("expected a typed invalid-identifier error"),
    }
    assert_eq!(TaskQuery::roots(&store).len(), 1);
}

#[test]
fn create_rejects_a_malformed_parent_identifier() {
    let mut store = TaskStore::new();
    let result = TaskMutation::create(
        &mut store,
        String::from("title1"),
        None,
        Some(String::from("not-a-real-id-format")),
    );
    match result {
        Err(ApiError::InvalidId(s)) => assert_eq!(s, "not-a-real-id-format"),
        _ => panic!("expected a typed invalid-identifier error"),
    }
    assert_eq!(TaskQuery::roots(&store).len(), 0);
}

#[test]
fn operation_groups_lead_to_the_task_operations() {
    let _queries: TaskQuery = Query::tasks();
    let _mutations: TaskMutation = Mutation::tasks();

    let store = TaskStore::new();
    assert_eq!(TaskQuery::roots(&store).len(), 0);
}
