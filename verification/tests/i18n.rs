use aura_core::i18n::{
    add_language, empty_index, greeting, list_english, remove_language,
};

/// Puts a language into an index with the string operations of the standard library.
fn add_by_hand(content: &str, lang_code: &str) -> String {
    let mut content = content.to_string();
    let import_stmt = format!("import {} from './locales/{}.json';\n", lang_code, lang_code);
    if !content.contains(&format!("import {} from", lang_code)) {
        if let Some(last_import_idx) = content.rfind("import ") {
            if let Some(newline_idx) = content[last_import_idx..].find('\n') {
                let insert_pos = last_import_idx + newline_idx + 1;
                content.insert_str(insert_pos, &import_stmt);
            }
        } else {
            content.insert_str(0, &import_stmt);
        }
    }
    let resource_entry = format!("  {}: {{ translation: {} }},\n", lang_code, lang_code);
    if !content.contains(&format!("{}: {{ translation:", lang_code)) {
        if let Some(resources_idx) = content.find("const resources = {") {
            if let Some(open_brace_idx) = content[resources_idx..].find('{') {
                let insert_pos = resources_idx + open_brace_idx + 1;
                content.insert_str(insert_pos, &format!("\n{}", resource_entry));
            }
        }
    }
    content
}

/// Takes a language out of an index with the string operations of the standard library.
fn remove_by_hand(content: &str, lang_code: &str) -> String {
    let lines: Vec<&str> = content.lines().collect();
    let mut new_lines = Vec::new();
    for line in lines {
        if line.trim().starts_with(&format!("import {} from", lang_code)) {
            continue;
        }
        if line.trim().starts_with(&format!("{}: {{ translation:", lang_code)) {
            continue;
        }
        new_lines.push(line);
    }
    new_lines.join("\n")
}

const INDEX: &str = "import i18n from 'i18next';\nimport en from './locales/en.json';\n\nconst resources = {\n  en: { translation: en },\n};\n\nexport default resources;\n";

fn samples() -> Vec<String> {
    vec![
        INDEX.to_string(),
        String::new(),
        "const resources = {};".to_string(),
        "import a from 'a'".to_string(),
        "import a from 'a'\n".to_string(),
        "// no imports\nconst resources = {\n};\n".to_string(),
        "import en from './locales/en.json';\r\nconst resources = {\r\n  en: { translation: en },\r\n};\r\n".to_string(),
        "x\n\n\ny\r".to_string(),
        "\n".to_string(),
        "   import de from './locales/de.json';\n\tde: { translation: de },\nlast".to_string(),
        "import de from\nde: { translation:\nimport def from 'x';\n".to_string(),
        "const resources = {const resources = {".to_string(),
    ]
}

#[test]
fn a_language_is_put_into_the_index() {
    let added = add_language(INDEX, "de");
    assert_eq!(
        added,
        "import i18n from 'i18next';\nimport en from './locales/en.json';\nimport de from './locales/de.json';\n\nconst resources = {\n  de: { translation: de },\n\n  en: { translation: en },\n};\n\nexport default resources;\n"
    );
    assert_eq!(add_language(&added, "de"), added);
    assert_eq!(add_language(INDEX, "en"), INDEX);
    assert_eq!(add_language("", "fr"), "import fr from './locales/fr.json';\n");
}

#[test]
fn adding_a_language_agrees_with_the_standard_library() {
    for content in samples() {
        for lang in ["de", "en", "a", "pt_BR"] {
            assert_eq!(
                add_language(&content, lang),
                add_by_hand(&content, lang),
                "adding {:?} to {:?}",
                lang,
                content
            );
        }
    }
}

#[test]
fn a_language_is_taken_out_of_the_index() {
    assert_eq!(
        remove_language(INDEX, "en"),
        "import i18n from 'i18next';\n\nconst resources = {\n};\n\nexport default resources;"
    );
    assert_eq!(remove_language(INDEX, "de"), INDEX.trim_end_matches('\n'));
    assert_eq!(remove_language("", "en"), "");
    assert_eq!(remove_language(&add_language(INDEX, "de"), "de"), remove_by_hand(&add_by_hand(INDEX, "de"), "de"));
}

#[test]
fn removing_a_language_agrees_with_the_standard_library() {
    for content in samples() {
        for lang in ["de", "en", "a", "def"] {
            assert_eq!(
                remove_language(&content, lang),
                remove_by_hand(&content, lang),
                "removing {:?} from {:?}",
                lang,
                content
            );
        }
    }
}

#[test]
fn english_is_listed_in_a_new_index() {
    assert_eq!(empty_index(), "const locales = [\n];\n\nexport default locales;\n");
    assert_eq!(
        list_english(&empty_index()),
        "const locales = [\n  \"en\",\n];\n\nexport default locales;\n"
    );
    let listed = list_english(&empty_index());
    assert_eq!(list_english(&listed), listed);
    for content in ["", "nothing", "const locales = [const locales = [", "x const locales = [ y"] {
        assert_eq!(
            list_english(content),
            content.replace("const locales = [", "const locales = [\n  \"en\",")
        );
    }
}

#[test]
fn greeting_names_the_guest() {
    assert_eq!(greeting("Ada"), "Hello, Ada! You've been greeted from Rust!");
    assert_eq!(greeting(""), "Hello, ! You've been greeted from Rust!");
}
