use effisuite_logic::todo::{apply_todo_write, TodoItem, TodoPriority, TodoStatus, TodoWriteArgs};

fn todo(id: &str, content: &str, p: TodoPriority, s: TodoStatus) -> TodoItem {
    TodoItem {
        id: id.to_string(),
        content: content.to_string(),
        priority: p,
        status: s,
        summary: None,
        parent_id: None,
        urgency: None,
        due_date: None,
        due_time: None,
        reminder_minutes_before: None,
        repeat_type: None,
        repeat_count: None,
        check_in_dates: None,
        reminder_enabled: false,
        tags: None,
    }
}

fn with_summary(mut t: TodoItem, s: &str) -> TodoItem {
    t.summary = Some(s.to_string());
    t
}

fn write(existing: &Vec<TodoItem>, todos: Vec<TodoItem>, merge: Option<bool>) -> (Vec<TodoItem>, String) {
    apply_todo_write(existing, TodoWriteArgs { todos, merge }).unwrap()
}

#[test]
fn create_new_list_replace_mode() {
    let (list, out) = write(
        &Vec::new(),
        vec![
            todo("1", "实现用户登录 API", TodoPriority::High, TodoStatus::InProgress),
            todo("2", "编写集成测试", TodoPriority::High, TodoStatus::Pending),
            todo("", "更新文档", TodoPriority::Medium, TodoStatus::Pending),
        ],
        Some(false),
    );
    assert!(out.contains("共 3 项"));
    assert!(out.contains("1 进行中"));
    assert!(out.contains("2 待办"));
    assert!(out.contains("3. 更新文档"));
    assert_eq!(list.len(), 3);
    assert_eq!(list[2].id, "3");
}

#[test]
fn merge_updates_existing_item_status() {
    let (list, _) = write(
        &Vec::new(),
        vec![
            todo("1", "任务A", TodoPriority::High, TodoStatus::Pending),
            todo("2", "任务B", TodoPriority::Medium, TodoStatus::InProgress),
        ],
        Some(false),
    );
    let (list, out) = write(
        &list,
        vec![with_summary(todo("1", "任务A", TodoPriority::High, TodoStatus::Completed), "已完成A")],
        Some(true),
    );
    assert_eq!(list.len(), 2);
    assert_eq!(list[0].id, "2");
    assert_eq!(list[0].status, TodoStatus::InProgress);
    assert_eq!(list[1].id, "1");
    assert_eq!(list[1].status, TodoStatus::Completed);
    assert_eq!(list[1].summary.as_deref(), Some("已完成A"));
    assert!(out.contains("- 已完成A"));
}

#[test]
fn auto_correct_multiple_in_progress() {
    let (list, _) = write(
        &Vec::new(),
        vec![
            todo("1", "第一个进行中", TodoPriority::High, TodoStatus::InProgress),
            todo("2", "第二个进行中", TodoPriority::Medium, TodoStatus::InProgress),
            todo("3", "待办", TodoPriority::Low, TodoStatus::Pending),
        ],
        Some(false),
    );
    let in_progress: Vec<&TodoItem> = list.iter().filter(|t| t.status == TodoStatus::InProgress).collect();
    assert_eq!(in_progress.len(), 1);
    assert_eq!(in_progress[0].id, "1");
    let item2 = list.iter().find(|t| t.id == "2").unwrap();
    assert_eq!(item2.status, TodoStatus::Pending);
}

#[test]
fn sort_verification() {
    let (list, _) = write(
        &Vec::new(),
        vec![
            todo("1", "已完成低优", TodoPriority::Low, TodoStatus::Completed),
            todo("2", "待办中优", TodoPriority::Medium, TodoStatus::Pending),
            todo("3", "进行中高优", TodoPriority::High, TodoStatus::InProgress),
            todo("4", "待办高优", TodoPriority::High, TodoStatus::Pending),
        ],
        Some(false),
    );
    let ids: Vec<&str> = list.iter().map(|t| t.id.as_str()).collect();
    assert_eq!(ids, vec!["3", "4", "2", "1"]);
}

#[test]
fn empty_list_handling_replace_clears() {
    let (list, _) = write(&Vec::new(), vec![todo("1", "任务", TodoPriority::High, TodoStatus::Pending)], Some(false));
    assert_eq!(list.len(), 1);
    let (list, out) = write(&list, vec![], Some(false));
    assert!(out.contains("待办列表为空"));
    assert!(list.is_empty());
}

#[test]
fn empty_list_merge_keeps_existing() {
    let (list, _) = write(&Vec::new(), vec![todo("1", "任务", TodoPriority::High, TodoStatus::Pending)], Some(false));
    let (list, out) = write(&list, vec![], Some(true));
    assert!(out.contains("共 1 项"));
    assert_eq!(list.len(), 1);
}

#[test]
fn summary_only_shown_when_completed() {
    let (list, out) = write(
        &Vec::new(),
        vec![with_summary(todo("1", "未完成项", TodoPriority::High, TodoStatus::Pending), "不该出现的总结")],
        Some(false),
    );
    assert!(!out.contains("不该出现的总结"));
    assert_eq!(list[0].summary, None);
    let (_, out) = write(
        &list,
        vec![with_summary(todo("1", "未完成项", TodoPriority::High, TodoStatus::Completed), "已完成的总结")],
        Some(true),
    );
    assert!(out.contains("- 已完成的总结"));
}

#[test]
fn empty_id_auto_generates_distinct_sequential() {
    let (list, _) = write(
        &Vec::new(),
        vec![
            todo("", "空id项1", TodoPriority::High, TodoStatus::Pending),
            todo("", "空id项2", TodoPriority::High, TodoStatus::Pending),
            todo("5", "显式id5", TodoPriority::High, TodoStatus::Pending),
        ],
        Some(false),
    );
    let ids: Vec<String> = list.iter().map(|t| t.id.clone()).collect();
    assert!(ids.contains(&"5".to_string()));
    assert!(ids.contains(&"6".to_string()));
    assert!(ids.contains(&"7".to_string()));
}

#[test]
fn merge_keeps_unmentioned_ids() {
    let (list, _) = write(
        &Vec::new(),
        vec![
            todo("1", "任务A", TodoPriority::High, TodoStatus::Pending),
            todo("2", "任务B", TodoPriority::High, TodoStatus::Pending),
            todo("3", "任务C", TodoPriority::High, TodoStatus::Pending),
        ],
        Some(false),
    );
    let (list, _) = write(&list, vec![todo("2", "任务B-改", TodoPriority::Medium, TodoStatus::InProgress)], Some(true));
    assert_eq!(list.len(), 3);
    let ids: Vec<&str> = list.iter().map(|t| t.id.as_str()).collect();
    assert!(ids.contains(&"1"));
    assert!(ids.contains(&"3"));
    let item2 = list.iter().find(|t| t.id == "2").unwrap();
    assert_eq!(item2.content, "任务B-改");
    assert_eq!(item2.priority, TodoPriority::Medium);
    assert_eq!(item2.status, TodoStatus::InProgress);
}

#[test]
fn rejects_empty_content() {
    let res = apply_todo_write(
        &Vec::new(),
        TodoWriteArgs { todos: vec![todo("1", "   ", TodoPriority::High, TodoStatus::Pending)], merge: Some(false) },
    );
    assert!(res.is_err());
}

#[test]
fn default_merge_is_replace() {
    let (list, _) = write(&Vec::new(), vec![todo("1", "旧任务", TodoPriority::High, TodoStatus::Pending)], None);
    let (_, out) = write(&list, vec![todo("2", "新任务", TodoPriority::Medium, TodoStatus::InProgress)], None);
    assert!(out.contains("共 1 项"));
    assert!(out.contains("新任务"));
    assert!(!out.contains("旧任务"));
}

#[test]
fn written_list_keeps_one_in_progress_and_sorted() {
    let (list, _) = write(
        &Vec::new(),
        vec![
            todo("a", "x", TodoPriority::Low, TodoStatus::InProgress),
            todo("b", "y", TodoPriority::High, TodoStatus::InProgress),
            todo("c", "z", TodoPriority::High, TodoStatus::Completed),
        ],
        Some(false),
    );
    assert_eq!(list.iter().filter(|t| t.status == TodoStatus::InProgress).count(), 1);
    assert_eq!(list[0].id, "a");
    assert_eq!(list[1].id, "b");
    assert_eq!(list[1].status, TodoStatus::Pending);
    assert_eq!(list[2].id, "c");
}

#[test]
fn sort_is_stable_and_ids_stay_non_empty() {
    let (list, _) = write(
        &Vec::new(),
        vec![
            todo("", "甲", TodoPriority::Low, TodoStatus::Pending),
            todo("b", "乙", TodoPriority::High, TodoStatus::Completed),
            todo("", "丙", TodoPriority::Low, TodoStatus::Pending),
            todo("d", "丁", TodoPriority::Low, TodoStatus::Pending),
            todo("e", "戊", TodoPriority::High, TodoStatus::Pending),
        ],
        Some(false),
    );
    let contents: Vec<&str> = list.iter().map(|t| t.content.as_str()).collect();
    assert_eq!(contents, vec!["戊", "甲", "丙", "丁", "乙"]);
    assert!(list.iter().all(|t| !t.id.is_empty()));
}
