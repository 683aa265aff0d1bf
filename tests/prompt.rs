use pren_core::arguments::PromptArguments;
use pren_core::prompt::{Prompt, PromptMetadata, PromptTemplate, PromptTemplatePart};
use pren_core::storage::MemoryStorage;

#[test]
fn prompt_test_new_simple_prompt() {
    let name = "prompt_name";
    let description = Some("A simple description".to_string());
    let content = "This is the prompt content";
    let tags = vec!["tag1".to_string(), "tag2".to_string()];

    let metadata = PromptMetadata::new(name.to_string(), description, tags.clone());
    let prompt = Prompt::new(metadata, content.to_string());

    let result = PromptTemplate::new(prompt);

    assert!(result.is_ok());

    let prompt_template = result.unwrap();

    assert_eq!(name, prompt_template.prompt.metadata.name);
    assert_eq!(content, prompt_template.prompt.content);
    assert_eq!(1, prompt_template.parts.len());
    assert_eq!(2, prompt_template.prompt.metadata.tags.len());
    assert_eq!(tags[0], prompt_template.prompt.metadata.tags[0]);
    assert_eq!(tags[1], prompt_template.prompt.metadata.tags[1]);
}

#[test]
fn test_new_simple_prompt() {
    let name = "prompt_name";
    let content = "This is the prompt content";
    let tags = vec!["tag1".to_string(), "tag2".to_string()];
    let prompt = Prompt::new_simple(name.to_string(), content.to_string(), tags.clone());

    assert_eq!(name, prompt.name());
    assert_eq!(content, prompt.content());

    assert_eq!(2, prompt.tags().len());
    assert_eq!(tags[0], prompt.tags()[0]);
    assert_eq!(tags[1], prompt.tags()[1]);
}

#[test]
fn prompt_test_new_template_prompt() {
    let name = "complex_prompt";
    let content = "Hello {{name}}, welcome to {{prompt:greeting}}! {{{{literal_braces}}}}";
    let tags = vec!["tag1".to_string(), "tag2".to_string()];

    let metadata = PromptMetadata::new(name.to_string(), None, tags.clone());
    let prompt = Prompt::new(metadata, content.to_string());

    let result = PromptTemplate::new(prompt);
    assert!(result.is_ok());

    let template = result.unwrap();
    assert_eq!(name, template.prompt.metadata.name);
    assert_eq!(content, template.prompt.content);

    assert_eq!(6, template.parts.len());

    match &template.parts[0] {
        PromptTemplatePart::Literal(text) => assert_eq!("Hello ", text),
        _ => panic!("Expected Literal part"),
    }

    match &template.parts[1] {
        PromptTemplatePart::Argument(arg) => assert_eq!("name", arg),
        _ => panic!("Expected Argument part"),
    }

    match &template.parts[2] {
        PromptTemplatePart::Literal(text) => assert_eq!(", welcome to ", text),
        _ => panic!("Expected Literal part"),
    }

    match &template.parts[3] {
        PromptTemplatePart::PromptReference(prompt_name) => assert_eq!("greeting", prompt_name),
        _ => panic!("Expected PromptReference part"),
    }

    match &template.parts[4] {
        PromptTemplatePart::Literal(text) => assert_eq!("! ", text),
        _ => panic!("Expected Literal part"),
    }

    match &template.parts[5] {
        PromptTemplatePart::Literal(text) => assert_eq!("literal_braces", text),
        _ => panic!("Expected Literal part"),
    }
}

#[test]
fn prompt_test_render_simple_prompt() {
    let metadata = PromptMetadata::new("simple".to_string(), None, vec![]);
    let prompt = Prompt::new(metadata, "This is a simple prompt".to_string());
    let template = PromptTemplate::new(prompt).expect("Failed to create template");

    let mut args = PromptArguments::new();
    args.insert("name".to_string(), "World".to_string());

    let storage = MemoryStorage::new();
    let rendered = template
        .render(&args, &storage)
        .expect("Failed to render simple prompt");
    assert_eq!("This is a simple prompt", rendered);
}

#[test]
fn prompt_test_render_template_prompt() {
    let metadata = PromptMetadata::new("template".to_string(), None, vec![]);
    let prompt = Prompt::new(metadata, "Hello {{name}}, welcome!".to_string());
    let template = PromptTemplate::new(prompt).expect("Failed to create template");

    let mut args = PromptArguments::new();
    args.insert("name".to_string(), "World".to_string());

    let storage = MemoryStorage::new();
    let rendered = template
        .render(&args, &storage)
        .expect("Failed to render template prompt");
    assert_eq!("Hello World, welcome!", rendered);
}

#[test]
fn prompt_test_render_template_prompt_missing_argument() {
    let metadata = PromptMetadata::new("template".to_string(), None, vec![]);
    let prompt = Prompt::new(metadata, "Hello {{name}}, welcome!".to_string());
    let template = PromptTemplate::new(prompt).expect("Failed to create template");

    let args = PromptArguments::new();

    let storage = MemoryStorage::new();
    let result = template.render(&args, &storage);
    assert!(result.is_err());
    assert_eq!("Missing argument: name", result.unwrap_err().message);
}

#[test]
fn prompt_test_render_template_prompt_multiple_arguments() {
    let metadata = PromptMetadata::new("template".to_string(), None, vec![]);
    let prompt = Prompt::new(
        metadata,
        "Dear {{name}}, you are {{age}} years old!".to_string(),
    );
    let template = PromptTemplate::new(prompt).expect("Failed to create template");

    let mut args = PromptArguments::new();
    args.insert("name".to_string(), "Alice".to_string());
    args.insert("age".to_string(), "30".to_string());

    let storage = MemoryStorage::new();
    let rendered = template
        .render(&args, &storage)
        .expect("Failed to render template prompt");
    assert_eq!("Dear Alice, you are 30 years old!", rendered);
}

#[test]
fn prompt_test_render_template_prompt_with_escaped_literals() {
    let metadata = PromptMetadata::new("template".to_string(), None, vec![]);
    let prompt = Prompt::new(
        metadata,
        "Hello {{{{{{name}}}}}}, you are {{age}} years old!".to_string(),
    );
    let template = PromptTemplate::new(prompt).expect("Failed to create template");

    let mut args = PromptArguments::new();
    args.insert("age".to_string(), "30".to_string());

    let storage = MemoryStorage::new();
    let rendered = template
        .render(&args, &storage)
        .expect("Failed to render template prompt");
    assert_eq!("Hello {{name}}, you are 30 years old!", rendered);
}

#[test]
fn test_render_template_with_prompt_reference() {
    let greeting_metadata = PromptMetadata::new("greeting".to_string(), None, vec![]);
    let greeting_prompt = Prompt::new(greeting_metadata, "Hello!".to_string());

    let main_metadata = PromptMetadata::new("main".to_string(), None, vec![]);
    let main_prompt = Prompt::new(
        main_metadata,
        "{{prompt:greeting}} Nice to meet you {{name}}!".to_string(),
    );
    let main_template = PromptTemplate::new(main_prompt).expect("Failed to create template");

    let mut storage = MemoryStorage::new();
    storage.save_prompt(greeting_prompt);

    let mut args = PromptArguments::new();
    args.insert("name".to_string(), "Alice".to_string());

    let rendered = main_template
        .render(&args, &storage)
        .expect("Failed to render template prompt with reference");
    assert_eq!("Hello! Nice to meet you Alice!", rendered);
}

#[test]
fn test_render_template_with_missing_prompt_reference() {
    let metadata = PromptMetadata::new("template".to_string(), None, vec![]);
    let prompt = Prompt::new(metadata, "Message: {{prompt:missing}}".to_string());
    let template = PromptTemplate::new(prompt).expect("Failed to create template");

    let mut args = PromptArguments::new();
    args.insert("name".to_string(), "Alice".to_string());

    let storage = MemoryStorage::new();
    let result = template.render(&args, &storage);
    assert!(result.is_err());
}

#[test]
fn test_render_template_with_nested_template_success() {
    let nested_metadata = PromptMetadata::new("nested_template".to_string(), None, vec![]);
    let nested_template_prompt = Prompt::new(
        nested_metadata,
        "This is a nested template with {{variable}}".to_string(),
    );
    let nested_template =
        PromptTemplate::new(nested_template_prompt).expect("Failed to create nested template");

    let main_metadata = PromptMetadata::new("main".to_string(), None, vec![]);
    let main_prompt = Prompt::new(
        main_metadata,
        "Referencing: {{prompt:nested_template}}".to_string(),
    );
    let main_template = PromptTemplate::new(main_prompt).expect("Failed to create main template");

    let mut storage = MemoryStorage::new();
    storage.save_prompt(nested_template.prompt);

    let mut args = PromptArguments::new();
    args.insert("variable".to_string(), "value".to_string());

    let result = main_template.render(&args, &storage);
    assert!(result.is_ok());
    assert_eq!(
        "Referencing: This is a nested template with value",
        result.unwrap()
    );
}

#[test]
fn test_render_template_with_circular_reference() {
    let prompt_a_metadata = PromptMetadata::new("prompt_a".to_string(), None, vec![]);
    let prompt_a = Prompt::new(prompt_a_metadata, "A {{prompt:prompt_b}}".to_string());
    let template_a = PromptTemplate::new(prompt_a.clone()).expect("Failed to create template");

    let prompt_b_metadata = PromptMetadata::new("prompt_b".to_string(), None, vec![]);
    let prompt_b = Prompt::new(prompt_b_metadata, "B {{prompt:prompt_a}}".to_string());

    let mut storage = MemoryStorage::new();
    storage.save_prompt(prompt_a);
    storage.save_prompt(prompt_b);

    let args = PromptArguments::new();

    let result = template_a.render(&args, &storage);
    assert!(result.is_err());
    assert!(result
        .unwrap_err()
        .message
        .contains("Circular reference detected"));
}

#[test]
fn test_render_template_with_max_depth_exceeded() {
    let prompt_level_0_metadata = PromptMetadata::new("prompt_level_0".to_string(), None, vec![]);
    let prompt_level_0 = Prompt::new(
        prompt_level_0_metadata,
        "Level 0 {{prompt:prompt_level_1}}".to_string(),
    );
    let template_level_0 =
        PromptTemplate::new(prompt_level_0.clone()).expect("Failed to create template");

    let prompt_level_1_metadata = PromptMetadata::new("prompt_level_1".to_string(), None, vec![]);
    let prompt_level_1 = Prompt::new(
        prompt_level_1_metadata,
        "Level 1 {{prompt:prompt_level_2}}".to_string(),
    );

    let prompt_level_2_metadata = PromptMetadata::new("prompt_level_2".to_string(), None, vec![]);
    let prompt_level_2 = Prompt::new(
        prompt_level_2_metadata,
        "Level 2 {{prompt:prompt_level_3}}".to_string(),
    );

    let prompt_level_3_metadata = PromptMetadata::new("prompt_level_3".to_string(), None, vec![]);
    let prompt_level_3 = Prompt::new(
        prompt_level_3_metadata,
        "Level 3 {{prompt:prompt_level_4}}".to_string(),
    );

    let prompt_level_4_metadata = PromptMetadata::new("prompt_level_4".to_string(), None, vec![]);
    let prompt_level_4 = Prompt::new(prompt_level_4_metadata, "Level 4".to_string());

    let mut storage = MemoryStorage::new();
    storage.save_prompt(prompt_level_0);
    storage.save_prompt(prompt_level_1);
    storage.save_prompt(prompt_level_2);
    storage.save_prompt(prompt_level_3);
    storage.save_prompt(prompt_level_4);

    let args = PromptArguments::new();

    let result = template_level_0.render(&args, &storage);
    assert!(result.is_err());
    assert!(result
        .unwrap_err()
        .message
        .contains("Maximum nesting depth of 3 exceeded"));
}

#[test]
fn test_render_template_with_valid_depth() {
    let prompt_level_0_metadata = PromptMetadata::new("prompt_level_0".to_string(), None, vec![]);
    let prompt_level_0 = Prompt::new(
        prompt_level_0_metadata,
        "Level 0 {{prompt:prompt_level_1}}".to_string(),
    );
    let template_level_0 =
        PromptTemplate::new(prompt_level_0.clone()).expect("Failed to create template");

    let prompt_level_1_metadata = PromptMetadata::new("prompt_level_1".to_string(), None, vec![]);
    let prompt_level_1 = Prompt::new(
        prompt_level_1_metadata,
        "Level 1 {{prompt:prompt_level_2}}".to_string(),
    );

    let prompt_level_2_metadata = PromptMetadata::new("prompt_level_2".to_string(), None, vec![]);
    let prompt_level_2 = Prompt::new(prompt_level_2_metadata, "Level 2".to_string());

    let mut storage = MemoryStorage::new();
    storage.save_prompt(prompt_level_0);
    storage.save_prompt(prompt_level_1);
    storage.save_prompt(prompt_level_2);

    let args = PromptArguments::new();

    let result = template_level_0.render(&args, &storage);
    assert!(result.is_ok());
    assert_eq!("Level 0 Level 1 Level 2", result.unwrap());
}

#[test]
fn test_render_template_with_variable_prompt_reference() {
    let dynamic_metadata = PromptMetadata::new("greeting".to_string(), None, vec![]);
    let dynamic_prompt = Prompt::new(dynamic_metadata, "Hello {{name}}!".to_string());
    let _dynamic_template =
        PromptTemplate::new(dynamic_prompt.clone()).expect("Failed to create template");

    let main_metadata = PromptMetadata::new("main".to_string(), None, vec![]);
    let main_prompt = Prompt::new(
        main_metadata,
        "Message: {{prompt_var:prompt_name}}".to_string(),
    );
    let main_template =
        PromptTemplate::new(main_prompt).expect("Failed to create template with variable reference");

    let mut storage = MemoryStorage::new();
    storage.save_prompt(dynamic_prompt);

    let mut args = PromptArguments::new();
    args.insert("prompt_name".to_string(), "greeting".to_string());
    args.insert("name".to_string(), "Alice".to_string());

    let rendered = main_template
        .render(&args, &storage)
        .expect("Failed to render template prompt with variable reference");
    assert_eq!("Message: Hello Alice!", rendered);
}

#[test]
fn test_variable_prompt_references() {
    let metadata = PromptMetadata::new("template".to_string(), None, vec![]);
    let prompt = Prompt::new(
        metadata,
        "Use {{prompt_var:first}} and {{prompt_var:second}} for dynamic content".to_string(),
    );
    let template = PromptTemplate::new(prompt).expect("Failed to create template");

    let variable_refs = template.variable_prompt_references();
    assert_eq!(variable_refs.len(), 2);
    assert!(variable_refs.contains(&"first".to_string()));
    assert!(variable_refs.contains(&"second".to_string()));
}

#[test]
fn test_render_template_with_missing_variable_prompt_reference() {
    let metadata = PromptMetadata::new("template".to_string(), None, vec![]);
    let prompt = Prompt::new(
        metadata,
        "Message: {{prompt_var:missing_prompt}}".to_string(),
    );
    let template = PromptTemplate::new(prompt).expect("Failed to create template");

    let mut args = PromptArguments::new();
    args.insert("missing_prompt".to_string(), "nonexistent".to_string());

    let storage = MemoryStorage::new();
    let result = template.render(&args, &storage);
    assert!(result.is_err());
}

#[test]
fn test_render_template_with_variable_prompt_reference_missing_argument() {
    let metadata = PromptMetadata::new("template".to_string(), None, vec![]);
    let prompt = Prompt::new(metadata, "Message: {{prompt_var:prompt_name}}".to_string());
    let template = PromptTemplate::new(prompt).expect("Failed to create template");

    let args = PromptArguments::new();

    let storage = MemoryStorage::new();
    let result = template.render(&args, &storage);
    assert!(result.is_err());
    assert_eq!("Missing argument: prompt_name", result.unwrap_err().message);
}

#[test]
fn test_render_template_with_variable_prompt_reference_circular_reference() {
    let prompt_a_metadata = PromptMetadata::new("prompt_a".to_string(), None, vec![]);
    let prompt_a = Prompt::new(prompt_a_metadata, "A {{prompt_var:ref_prompt}}".to_string());
    let template_a = PromptTemplate::new(prompt_a.clone()).expect("Failed to create template");

    let prompt_b_metadata = PromptMetadata::new("prompt_b".to_string(), None, vec![]);
    let prompt_b = Prompt::new(prompt_b_metadata, "B {{name}}".to_string());

    let mut storage = MemoryStorage::new();
    storage.save_prompt(prompt_a);
    storage.save_prompt(prompt_b);

    let mut args = PromptArguments::new();
    args.insert("ref_prompt".to_string(), "prompt_a".to_string());
    args.insert("name".to_string(), "Alice".to_string());

    let result = template_a.render(&args, &storage);
    assert!(result.is_err());
    assert!(result
        .unwrap_err()
        .message
        .contains("Circular reference detected"));
}
