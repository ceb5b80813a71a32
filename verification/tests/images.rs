use cooklang::images::{image_indexes, is_image_extension, ImageIndexes};

#[test]
fn whole_recipe_image() {
    assert_eq!(image_indexes("Recipe", "Recipe.jpg"), Some(None));
    assert_eq!(image_indexes("Recipe", "Recipe.webp"), Some(None));
}

#[test]
fn step_images() {
    assert_eq!(
        image_indexes("Recipe", "Recipe.3.jpg"),
        Some(Some(ImageIndexes { section: 0, step: 3 }))
    );
    assert_eq!(
        image_indexes("Recipe", "Recipe.1.3.png"),
        Some(Some(ImageIndexes { section: 1, step: 3 }))
    );
    assert_eq!(
        image_indexes("My.Recipe", "My.Recipe.1.2.png"),
        Some(Some(ImageIndexes { section: 1, step: 2 }))
    );
    assert_eq!(
        image_indexes("Recipe", "Recipe.+4.gif"),
        Some(Some(ImageIndexes { section: 0, step: 4 }))
    );
}

#[test]
fn not_images_of_the_recipe() {
    assert_eq!(image_indexes("Recipe", "Recipe"), None);
    assert_eq!(image_indexes("Recipe", "Other.jpg"), None);
    assert_eq!(image_indexes("Recipe", "Recipe.txt"), None);
    assert_eq!(image_indexes("Recipe", "Recipe.a.jpg"), None);
    assert_eq!(image_indexes("Recipe", "Recipe.70000.jpg"), None);
    assert_eq!(image_indexes("My.Recipe", "My.Recipe.png"), None);
}

#[test]
fn extensions() {
    for e in ["jpeg", "jpg", "png", "heic", "gif", "webp"] {
        assert!(is_image_extension(e));
    }
    assert!(!is_image_extension("JPG"));
    assert!(!is_image_extension("cook"));
}
