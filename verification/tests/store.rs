use task_forest::task::Task;
use task_forest::task::TaskStore;

fn setup_task(store: &mut TaskStore, title: String, description: Option<String>) -> Task {
    Task::create(store, title, description, None).unwrap()
}

#[test]
fn creates_task() {
    let mut store = TaskStore::new();
    let title = String::from("title");

    let task = Task::create(&mut store, title.clone(), None, None).unwrap();

    let result = Task::get_roots(&store);

    assert_eq!(result.len(), 1);
    assert_eq!(result[0].id(), task.id());
    assert_eq!(result[0].title(), task.title());
    assert_eq!(result[0].description(), task.description());

    assert_eq!(task.title(), &title);
    assert_eq!(task.description(), &None);
}

#[test]
fn gets_all_root_tasks() {
    let mut store = TaskStore::new();
    let tasks = vec![
        setup_task(
            &mut store,
            String::from("title1"),
            Some(String::from("description")),
        ),
        setup_task(&mut store, String::from("title2"), None),
    ];

    let result = Task::get_roots(&store);
    assert_eq!(result.len(), 2);
    assert_eq!(result[0].id(), tasks[0].id());
    assert_eq!(result[0].title(), tasks[0].title());
    assert_eq!(result[0].description(), tasks[0].description());
    assert_eq!(result[1].id(), tasks[1].id());
    assert_eq!(result[1].title(), tasks[1].title());
    assert_eq!(result[1].description(), tasks[1].description());
}

#[test]
fn updates_task_title() {
    let mut store = TaskStore::new();
    let task = setup_task(&mut store, String::from("title"), None);
    let new_title = String::from("new title");

    let result = task.update_title(&mut store, new_title.clone());
    assert_eq!(result.title(), &new_title);
    assert_eq!(result.description(), &None);
}

#[test]
fn updates_task_description() {
    let mut store = TaskStore::new();
    let task = setup_task(&mut store, String::from("title"), None);
    let new_description = Some(String::from("description"));

    let result = task.update_description(&mut store, new_description.clone());
    assert_eq!(result.title(), &String::from("title"));
    assert_eq!(result.description(), &new_description);
}

#[test]
fn deletes_task() {
    let mut store = TaskStore::new();
    let task = setup_task(&mut store, String::from("title"), None);
    let id = task.id();

    task.delete(&mut store);

    assert_eq!(store.count_with_id(id), 0);
    assert!(Task::get_one(&store, id).is_none());
}

#[test]
fn updates_keep_other_rows() {
    let mut store = TaskStore::new();
    let first = setup_task(&mut store, String::from("title1"), None);
    let second = setup_task(
        &mut store,
        String::from("title2"),
        Some(String::from("description")),
    );

    let updated = first.update_title(&mut store, String::from("renamed"));
    assert_eq!(updated.title(), &String::from("renamed"));

    let other = Task::get_one(&store, second.id()).unwrap();
    assert_eq!(other.title(), &String::from("title2"));
    assert_eq!(other.description(), &Some(String::from("description")));
}

#[test]
fn update_description_cleared_by_none() {
    let mut store = TaskStore::new();
    let task = setup_task(
        &mut store,
        String::from("title"),
        Some(String::from("description")),
    );

    let result = task.update_description(&mut store, None);
    assert_eq!(result.title(), &String::from("title"));
    assert_eq!(result.description(), &None);
}

#[test]
fn create_with_taken_id_is_a_conflict() {
    let mut store = TaskStore::new();
    let first = Task::create_with_id(&mut store, 42, String::from("title1"), None, None);
    assert!(first.is_ok());

    let second = Task::create_with_id(&mut store, 42, String::from("title2"), None, None);
    match second {
        Err(e) => assert_eq!(e, task_forest::task::StoreError::IdConflict),
        Ok(_) => panic!("expected an identifier conflict"),
    }
    assert_eq!(store.count_with_id(42), 1);
}

#[test]
fn parent_and_children_follow_the_reference() {
    let mut store = TaskStore::new();
    let root = setup_task(&mut store, String::from("title1"), None);
    let child = Task::create(
        &mut store,
        String::from("title2"),
        None,
        Some(root.id()),
    )
    .unwrap();

    let children = root.children(&store);
    assert_eq!(children.len(), 1);
    assert_eq!(children[0].id(), child.id());
    assert_eq!(children[0].title(), child.title());

    let parent = child.parent(&store).unwrap();
    assert_eq!(parent.id(), root.id());
    assert_eq!(parent.title(), root.title());
    assert_eq!(parent.description(), root.description());

    assert!(root.parent(&store).is_none());
    assert_eq!(child.parent_id(), Some(root.id()));
    assert_eq!(root.parent_id(), None);
}

#[test]
fn children_of_a_deleted_task_stay() {
    let mut store = TaskStore::new();
    let root = setup_task(&mut store, String::from("title1"), None);
    let root_id = root.id();
    let child = Task::create(
        &mut store,
        String::from("title2"),
        None,
        Some(root_id),
    )
    .unwrap();

    root.delete(&mut store);

    let kept = Task::get_one(&store, child.id()).unwrap();
    assert_eq!(kept.parent_id(), Some(root_id));
    assert!(Task::get_one(&store, root_id).is_none());
}
