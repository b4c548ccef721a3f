use voice_assistant::coordinator::Status;
use voice_assistant::interpreter::{Action, ActionOutcome, Interpreter, InterpreterError, ThoughtActions};

#[test]
fn input_then_retrieve_then_index() {
    let mut it = Interpreter::with();
    let plan = ThoughtActions {
        actions: vec![
            Action::GetStdInput { prompt: "Topic?".to_string() },
            Action::RetrieveDocuments,
            Action::IndexDocuments,
        ],
    };
    match it.apply(&plan.actions[0]) {
        Ok(ActionOutcome::AskInput(p)) => assert_eq!(p, "Topic?"),
        other => panic!("unexpected {:?}", other),
    }
    it.store_input("rust\n".to_string());
    assert_eq!(it.memory_len(), 1);
    match it.apply(&plan.actions[1]) {
        Ok(ActionOutcome::Retrieve(q)) => assert_eq!(q, "rust\n"),
        other => panic!("unexpected {:?}", other),
    }
    assert_eq!(it.memory_len(), 0);
    it.store_documents(vec!["hello".to_string()]);
    match it.apply(&plan.actions[2]) {
        Ok(ActionOutcome::Index(d)) => assert_eq!(d, vec!["hello".to_string()]),
        other => panic!("unexpected {:?}", other),
    }
    assert_eq!(it.memory_len(), 0);
}

#[test]
fn retrieve_without_input_fails() {
    let mut it = Interpreter::with();
    assert!(matches!(it.apply(&Action::RetrieveDocuments), Err(InterpreterError::MissingInput)));
    it.store_documents(vec![]);
    assert!(matches!(it.apply(&Action::RetrieveDocuments), Err(InterpreterError::MissingInput)));
    assert_eq!(it.memory_len(), 1);
}

#[test]
fn index_without_documents_fails() {
    let mut it = Interpreter::with();
    assert!(matches!(it.apply(&Action::IndexDocuments), Err(InterpreterError::MissingDocuments)));
    it.store_input("x".to_string());
    assert!(matches!(it.apply(&Action::IndexDocuments), Err(InterpreterError::MissingDocuments)));
    assert_eq!(it.memory_len(), 1);
}

#[test]
fn search_and_write_leave_memory() {
    let mut it = Interpreter::with();
    it.store_input("x".to_string());
    let search = Action::Search { query: "q".to_string(), collection: "c".to_string() };
    let write = Action::Writetofile { filename: "f".to_string(), content: "c".to_string() };
    assert!(matches!(it.apply(&search), Ok(ActionOutcome::Nothing)));
    assert!(matches!(it.apply(&write), Ok(ActionOutcome::Nothing)));
    assert_eq!(it.memory_len(), 1);
}

#[test]
fn interpreter_status_follows_work() {
    let mut it = Interpreter::with();
    assert_eq!(it.status(), Status::Idle);
    it.begin();
    assert_eq!(it.status(), Status::Busy);
    it.finish();
    assert_eq!(it.status(), Status::Idle);
}
