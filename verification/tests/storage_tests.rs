use armadillo_learn_desktop::storage::{
    escape_like, NewWord, StorageError, UpdateWord, WordRepository,
};

fn new_word(word: &str, translation: &str) -> NewWord {
    NewWord {
        word: word.to_string(),
        word_translation: translation.to_string(),
        meaning: String::new(),
        sentence: String::new(),
        sentence_translation: String::new(),
        part_of_speech: String::new(),
        topic: String::new(),
        synonyms: vec!["jog".to_string()],
    }
}

#[test]
fn create_saves_word() {
    let mut repo = WordRepository::open_in_memory().unwrap();

    let saved = repo.create(new_word("run", "бежать")).unwrap();

    assert!(saved.id > 0);
    assert_eq!(saved.word, "run");
    assert_eq!(saved.word_translation, "бежать");
    assert_eq!(saved.synonyms, vec!["jog".to_string()]);
}

#[test]
fn create_trims_spaces() {
    let mut repo = WordRepository::open_in_memory().unwrap();

    let saved = repo.create(new_word("  run  ", "бежать")).unwrap();

    assert_eq!(saved.word, "run");
}

#[test]
fn create_rejects_empty_word() {
    let mut repo = WordRepository::open_in_memory().unwrap();

    let result = repo.create(new_word("   ", "пусто"));

    assert!(matches!(result, Err(StorageError::Validation(_))));
}

#[test]
fn create_same_word_twice_keeps_one_record() {
    let mut repo = WordRepository::open_in_memory().unwrap();

    let first = repo.create(new_word("run", "бежать")).unwrap();
    let second = repo.create(new_word("RUN", "управлять")).unwrap();

    assert_eq!(first.id, second.id);
    assert_eq!(second.word_translation, "управлять");
}

#[test]
fn get_returns_word_by_id() {
    let mut repo = WordRepository::open_in_memory().unwrap();
    let saved = repo.create(new_word("run", "бежать")).unwrap();

    let found = repo.get(saved.id).unwrap();

    assert_eq!(found, saved);
}

#[test]
fn get_missing_id_returns_not_found() {
    let repo = WordRepository::open_in_memory().unwrap();

    let result = repo.get(999);

    assert!(matches!(result, Err(StorageError::NotFound(999))));
}

#[test]
fn find_by_word_ignores_case() {
    let mut repo = WordRepository::open_in_memory().unwrap();
    repo.create(new_word("Armadillo", "броненосец")).unwrap();

    let found = repo.find_by_word("armadillo").unwrap();
    let missing = repo.find_by_word("zebra").unwrap();

    assert!(found.is_some());
    assert!(missing.is_none());
}

#[test]
fn list_returns_all_when_search_is_empty() {
    let mut repo = WordRepository::open_in_memory().unwrap();
    repo.create(new_word("run", "бежать")).unwrap();
    repo.create(new_word("walk", "идти")).unwrap();

    let words = repo.list("").unwrap();

    assert_eq!(words.len(), 2);
}

#[test]
fn list_searches_in_word_and_translation() {
    let mut repo = WordRepository::open_in_memory().unwrap();
    repo.create(new_word("run", "бежать")).unwrap();
    repo.create(new_word("walk", "идти")).unwrap();
    repo.create(new_word("runner", "бегун")).unwrap();

    assert_eq!(repo.list("run").unwrap().len(), 2);
    assert_eq!(repo.list("идти").unwrap()[0].word, "walk");
}

#[test]
fn list_treats_percent_as_normal_text() {
    let mut repo = WordRepository::open_in_memory().unwrap();
    repo.create(new_word("run", "бежать")).unwrap();

    let words = repo.list("%").unwrap();

    assert_eq!(words.len(), 0);
}

#[test]
fn update_changes_translation_and_meaning() {
    let mut repo = WordRepository::open_in_memory().unwrap();
    let saved = repo.create(new_word("run", "бежать")).unwrap();

    let changes = UpdateWord {
        word_translation: "руководить".to_string(),
        meaning: "to manage".to_string(),
    };
    let updated = repo.update(saved.id, changes).unwrap();

    assert_eq!(updated.word_translation, "руководить");
    assert_eq!(updated.meaning, "to manage");
    assert_eq!(updated.word, "run");
}

#[test]
fn update_missing_id_returns_not_found() {
    let mut repo = WordRepository::open_in_memory().unwrap();

    let changes = UpdateWord {
        word_translation: "что-то".to_string(),
        meaning: String::new(),
    };
    let result = repo.update(999, changes);

    assert!(matches!(result, Err(StorageError::NotFound(999))));
}

#[test]
fn delete_removes_word() {
    let mut repo = WordRepository::open_in_memory().unwrap();
    let saved = repo.create(new_word("run", "бежать")).unwrap();

    repo.delete(saved.id).unwrap();

    assert_eq!(repo.list("").unwrap().len(), 0);
}

#[test]
fn delete_missing_id_returns_not_found() {
    let mut repo = WordRepository::open_in_memory().unwrap();

    let result = repo.delete(999);

    assert!(matches!(result, Err(StorageError::NotFound(999))));
}

// Further cases of the repository's contracts.

#[test]
fn escape_like_escapes_wildcards_and_backslash() {
    assert_eq!(escape_like("50%_a\\b"), "50\\%\\_a\\\\b");
    assert_eq!(escape_like("plain"), "plain");
    assert_eq!(escape_like(""), "");
}

#[test]
fn update_rejects_blank_translation_and_trims() {
    let mut repo = WordRepository::open_in_memory().unwrap();
    let saved = repo.create(new_word("run", "бежать")).unwrap();

    let blank = UpdateWord { word_translation: "   ".to_string(), meaning: "x".to_string() };
    match repo.update(saved.id, blank) {
        Err(StorageError::Validation(message)) => assert_eq!(message, "translation must not be empty"),
        other => panic!("unexpected {other:?}"),
    }

    let padded = UpdateWord { word_translation: "  вести ".to_string(), meaning: " to lead ".to_string() };
    let updated = repo.update(saved.id, padded).unwrap();
    assert_eq!(updated.word_translation, "вести");
    assert_eq!(updated.meaning, "to lead");
    assert_eq!(updated.created_at, saved.created_at);
}

#[test]
fn empty_word_message_and_validation_trims() {
    match new_word(" \t ", "x").validated() {
        Err(StorageError::Validation(message)) => assert_eq!(message, "word must not be empty"),
        other => panic!("unexpected {other:?}"),
    }
    let valid = new_word("  cat ", "  кот ").validated().unwrap();
    assert_eq!(valid.word, "cat");
    assert_eq!(valid.word_translation, "кот");
}

#[test]
fn saving_again_keeps_text_and_creation_time() {
    let mut repo = WordRepository::open_in_memory().unwrap();
    let first = repo.create(new_word("Armadillo", "броненосец")).unwrap();
    let mut again = new_word("armadillo", "армадилл");
    again.synonyms = vec!["tatu".to_string(), "peludo".to_string()];
    let second = repo.create(again).unwrap();

    assert_eq!(second.id, first.id);
    assert_eq!(second.word, "Armadillo");
    assert_eq!(second.created_at, first.created_at);
    assert_eq!(second.synonyms, vec!["tatu".to_string(), "peludo".to_string()]);
    assert_eq!(repo.list("").unwrap().len(), 1);
}

#[test]
fn list_is_case_insensitive_for_ascii_and_newest_first() {
    let mut repo = WordRepository::open_in_memory().unwrap();
    repo.create(new_word("Run", "бежать")).unwrap();
    repo.create(new_word("rerun", "перезапуск")).unwrap();
    repo.create(new_word("walk", "идти")).unwrap();

    let words = repo.list("  RUN ").unwrap();
    assert_eq!(words.len(), 2);
    let mut names: Vec<&str> = words.iter().map(|w| w.word.as_str()).collect();
    names.sort();
    assert_eq!(names, vec!["Run", "rerun"]);
    assert!(words[0].created_at >= words[1].created_at);
}

#[test]
fn list_matches_literal_underscore_only() {
    let mut repo = WordRepository::open_in_memory().unwrap();
    repo.create(new_word("snake_case", "змеиный")).unwrap();
    repo.create(new_word("snakeXcase", "другое")).unwrap();

    let words = repo.list("e_c").unwrap();
    assert_eq!(words.len(), 1);
    assert_eq!(words[0].word, "snake_case");
}

#[test]
fn deleted_word_is_gone() {
    let mut repo = WordRepository::open_in_memory().unwrap();
    let saved = repo.create(new_word("run", "бежать")).unwrap();
    repo.delete(saved.id).unwrap();

    assert!(matches!(repo.get(saved.id), Err(StorageError::NotFound(id)) if id == saved.id));
    assert!(repo.find_by_word("run").unwrap().is_none());
    assert!(matches!(repo.delete(saved.id), Err(StorageError::NotFound(_))));
}

#[test]
fn ids_start_at_one_and_follow_the_largest() {
    let mut repo = WordRepository::open_in_memory().unwrap();
    let first = repo.create(new_word("run", "бежать")).unwrap();
    let second = repo.create(new_word("walk", "идти")).unwrap();
    assert_eq!((first.id, second.id), (1, 2));
    repo.delete(first.id).unwrap();
    let third = repo.create(new_word("jump", "прыгать")).unwrap();
    assert_eq!(third.id, 3);
}

#[test]
fn words_compare_up_to_a_shared_nul_with_equal_lengths() {
    let mut repo = WordRepository::open_in_memory().unwrap();
    let first = repo.create(new_word("a\0b", "один")).unwrap();
    let second = repo.create(new_word("A\0c", "два")).unwrap();
    assert_eq!(first.id, second.id);
    assert_eq!(second.word, "a\0b");
    assert_eq!(second.word_translation, "два");
    let longer = repo.create(new_word("a\0cd", "три")).unwrap();
    assert_ne!(longer.id, first.id);
    assert_eq!(repo.find_by_word("a\0z").unwrap().unwrap().id, first.id);
}

#[test]
fn search_reads_texts_up_to_a_nul() {
    let mut repo = WordRepository::open_in_memory().unwrap();
    repo.create(new_word("cat\0dog", "кошка")).unwrap();
    repo.create(new_word("catalog", "каталог")).unwrap();
    let dog: Vec<String> = repo.list("dog").unwrap().into_iter().map(|w| w.word).collect();
    assert!(dog.is_empty());
    // A NUL in the search drops the pattern's closing `%`: the text must end with "cat".
    let ends: Vec<String> = repo.list("cat\0x").unwrap().into_iter().map(|w| w.word).collect();
    assert_eq!(ends, vec!["cat\0dog".to_string()]);
}
