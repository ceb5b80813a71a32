use cooklang::cooklang_text::step_to_cooklang;
use cooklang::model::RecipeContent;

fn first_step_text(input: &str) -> String {
    let r = cooklang::parse(input, "r");
    let rec = r.into_output().unwrap();
    let content = RecipeContent {
        metadata: rec.metadata,
        sections: rec.sections,
        ingredients: rec.ingredients,
        cookware: rec.cookware,
        timers: rec.timers,
        inline_quantities: rec.inline_quantities,
    };
    step_to_cooklang(&content.sections[0].steps[0], &content)
}

#[test]
fn components_are_written_back() {
    assert_eq!(
        first_step_text("Add @flour{100%g} and @salt in a #big pot{} for ~{5%min}."),
        "Add @flour{100%g} and @salt in a #big pot{} for ~{5%min}."
    );
}

#[test]
fn alias_note_and_names_with_spaces_are_written_back() {
    assert_eq!(
        first_step_text("Peel @potato|potatoes{2}(peeled) and @olive oil{}."),
        "Peel @potato|potatoes{2}(peeled) and @olive oil{}."
    );
}

#[test]
fn text_steps_keep_their_mark() {
    assert_eq!(first_step_text(">   Just some text.  "), "> Just some text.");
}
