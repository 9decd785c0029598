use getapi::error::GetapiError;
use getapi::recipe::registry::{merge_recipes, RecipeRegistry};
use getapi::recipe::remote::{
    has_json_extension, index_url, is_cached_recipe, recipe_url, RecipeIndexEntry,
};
use getapi::recipe::types::Recipe;

fn recipe(id: &str, name: &str, description: &str, category: Vec<&str>) -> Recipe {
    Recipe {
        schema_version: "1".to_string(),
        id: id.to_string(),
        display_name: name.to_string(),
        description: description.to_string(),
        category: category.into_iter().map(|c| c.to_string()).collect(),
        website: None,
        auth_types: vec![],
        estimated_time: None,
        prerequisites: vec![],
        outputs: vec![],
        steps: vec![],
        gotchas: vec![],
        version: None,
        last_verified: None,
    }
}

fn ids(recipes: &[&Recipe]) -> Vec<String> {
    recipes.iter().map(|r| r.id.clone()).collect()
}

#[test]
fn merge_sorts_by_id_and_prefers_the_overlay() {
    let base = vec![
        recipe("twitter", "Twitter (bundled)", "", vec![]),
        recipe("openai", "OpenAI", "", vec![]),
        recipe("stripe", "Stripe", "", vec![]),
    ];
    let overlay = vec![
        recipe("twitter", "Twitter (cached)", "", vec![]),
        recipe("aws", "AWS", "", vec![]),
    ];
    let merged = merge_recipes(base, overlay);
    let got: Vec<(&str, &str)> =
        merged.iter().map(|r| (r.id.as_str(), r.display_name.as_str())).collect();
    assert_eq!(
        got,
        vec![
            ("aws", "AWS"),
            ("openai", "OpenAI"),
            ("stripe", "Stripe"),
            ("twitter", "Twitter (cached)"),
        ]
    );
}

#[test]
fn merge_keeps_the_last_of_equal_ids() {
    let base = vec![recipe("a", "first", "", vec![]), recipe("a", "second", "", vec![])];
    let merged = merge_recipes(base, vec![]);
    assert_eq!(merged.len(), 1);
    assert_eq!(merged[0].display_name, "second");
    assert!(merge_recipes(vec![], vec![]).is_empty());
}

#[test]
fn registry_finds_by_id() {
    let registry = RecipeRegistry::new(
        vec![recipe("stripe", "Stripe", "Payments", vec!["payments"])],
        vec![recipe("openai", "OpenAI", "Models", vec!["ai"])],
    );
    assert_eq!(registry.all().len(), 2);
    assert_eq!(registry.all()[0].id, "openai");
    assert_eq!(registry.find("stripe").map(|r| r.display_name.as_str()), Some("Stripe"));
    assert!(registry.find("Stripe").is_none());
    assert!(registry.find("nope").is_none());
}

#[test]
fn extra_directory_is_appended_or_ignored() {
    let registry = RecipeRegistry::new(vec![recipe("b", "B", "", vec![])], vec![]);
    let registry = registry.with_extra_dir(Ok(vec![
        recipe("a", "A", "", vec![]),
        recipe("b", "B again", "", vec![]),
    ]));
    let listed: Vec<&str> = registry.all().iter().map(|r| r.display_name.as_str()).collect();
    assert_eq!(listed, vec!["B", "A", "B again"]);
    assert_eq!(registry.find("b").map(|r| r.display_name.as_str()), Some("B"));
    let same = registry
        .clone()
        .with_extra_dir(Err(GetapiError::RecipeFileNotFound("Directory not found: x".to_string())));
    assert_eq!(same, registry);
}

#[test]
fn search_ignores_case_and_looks_everywhere() {
    let registry = RecipeRegistry::new(
        vec![
            recipe("twitter", "Twitter / X", "Social posts", vec!["Social"]),
            recipe("sendgrid", "SendGrid", "Transactional EMAIL", vec!["messaging"]),
            recipe("stripe", "Stripe", "Payments", vec!["Payments", "Email-receipts"]),
        ],
        vec![],
    );
    assert_eq!(ids(&registry.search("TWIT")), vec!["twitter"]);
    assert_eq!(ids(&registry.search("email")), vec!["sendgrid", "stripe"]);
    assert_eq!(ids(&registry.search("x")), vec!["twitter"]);
    assert_eq!(ids(&registry.search("")), vec!["sendgrid", "stripe", "twitter"]);
    assert!(registry.search("nothing-like-it").is_empty());
}

#[test]
fn filter_by_category_wants_the_whole_name() {
    let registry = RecipeRegistry::new(
        vec![
            recipe("twitter", "Twitter", "", vec!["Social"]),
            recipe("stripe", "Stripe", "", vec!["payments", "social-commerce"]),
        ],
        vec![],
    );
    assert_eq!(ids(&registry.filter_by_category("SOCIAL")), vec!["twitter"]);
    assert_eq!(ids(&registry.filter_by_category("Payments")), vec!["stripe"]);
    assert!(registry.filter_by_category("soc").is_empty());
}

#[test]
fn list_prefers_the_query_over_the_category() {
    let registry = RecipeRegistry::new(
        vec![
            recipe("twitter", "Twitter", "", vec!["social"]),
            recipe("stripe", "Stripe", "", vec!["payments"]),
        ],
        vec![],
    );
    assert_eq!(ids(&registry.list(Some("stripe"), Some("social"))), vec!["stripe"]);
    assert_eq!(ids(&registry.list(None, Some("social"))), vec!["twitter"]);
    assert_eq!(ids(&registry.list(None, None)), vec!["stripe", "twitter"]);
}

#[test]
fn repository_addresses() {
    assert_eq!(
        index_url(),
        "https://raw.githubusercontent.com/m2de/getapi/master/providers/index.json"
    );
    let entry = RecipeIndexEntry {
        id: "stripe".to_string(),
        file: "stripe.json".to_string(),
        version: "1".to_string(),
    };
    assert_eq!(
        recipe_url(&entry),
        "https://raw.githubusercontent.com/m2de/getapi/master/providers/stripe.json"
    );
}

#[test]
fn cached_recipe_files() {
    for name in ["stripe.json", "a.json", "index.json", "x.y.json", "..json"] {
        assert!(has_json_extension(name), "{}", name);
        assert_eq!(
            std::path::Path::new(name).extension().and_then(|e| e.to_str()),
            Some("json"),
            "{}",
            name
        );
    }
    for name in [".json", "json", "stripe.JSON", "stripe.json.bak", "", "stripe.jsonx", "stripe"] {
        assert!(!has_json_extension(name), "{}", name);
        assert_ne!(
            std::path::Path::new(name).extension().and_then(|e| e.to_str()),
            Some("json"),
            "{}",
            name
        );
    }
    assert!(is_cached_recipe("stripe.json"));
    assert!(!is_cached_recipe("index.json"));
    assert!(!is_cached_recipe(".last_check"));
}
