use rustmon::catalog::{
    find_pokedex_by_pokemon, find_pokemon_ci, get_pokemon_data, pokemon_list_lines,
    transform_pokemon_data, Generation, Pokemon, PokemonRaw, Slug,
};
use rustmon::error::CoreError;
use rustmon::select::{
    catalog_dexes_valid, generate_slug_list, is_fast_path, joined_names, names_to_pokedexes,
    process_forms_list, process_pokedexes_list, slug_generator,
};
use rustmon::text::{parse_u16, parse_u32};

fn entry(pokedex: &str, name: &str, forms: &[&str]) -> Pokemon {
    Pokemon {
        pokedex: pokedex.to_string(),
        name: name.to_string(),
        forms: forms.iter().map(|f| f.to_string()).collect(),
    }
}

fn catalog() -> Vec<Pokemon> {
    vec![
        entry("1", "bulbasaur", &["regular"]),
        entry("25", "pikachu", &["regular", "alola", "gmax"]),
        entry("150", "mewtwo", &["regular", "mega-x"]),
    ]
}

fn raw(idx: &str, slug: &str, forms: &[&str]) -> PokemonRaw {
    PokemonRaw {
        idx: idx.to_string(),
        slug: Slug { eng: slug.to_string() },
        gen_8: Generation { forms: forms.iter().map(|f| f.to_string()).collect() },
    }
}

#[test]
fn transform_sorts_by_pokedex_and_normalizes_forms() {
    let entries = vec![
        raw("0025", "pikachu", &["gmax", "$", "alola"]),
        raw("0001", "bulbasaur", &["$"]),
    ];
    let result = transform_pokemon_data(&entries);
    assert_eq!(result.len(), 2);
    assert_eq!(result[0].pokedex, "1");
    assert_eq!(result[0].name, "bulbasaur");
    assert_eq!(result[0].forms, vec!["regular".to_string()]);
    assert_eq!(result[1].pokedex, "25");
    assert_eq!(result[1].name, "pikachu");
    // "$" becomes "regular"; the rest is sorted and "regular" leads.
    assert_eq!(
        result[1].forms,
        vec!["regular".to_string(), "alola".to_string(), "gmax".to_string()]
    );
}

#[test]
fn transform_unparseable_pokedex_sorts_first() {
    let entries = vec![raw("0007", "squirtle", &["$"]), raw("", "eggy", &["$"])];
    let result = transform_pokemon_data(&entries);
    assert_eq!(result[0].name, "eggy");
    assert_eq!(result[0].pokedex, "");
    assert_eq!(result[1].name, "squirtle");
}

#[test]
fn find_pokedex_translates_names() {
    let cat = catalog();
    assert_eq!(find_pokedex_by_pokemon("pikachu", &cat).unwrap(), "25");
    assert_eq!(find_pokedex_by_pokemon("random", &cat).unwrap(), "0");
    match find_pokedex_by_pokemon("missingno", &cat) {
        Err(CoreError::UnknownSpecies { name }) => assert_eq!(name, "missingno"),
        _ => panic!("expected UnknownSpecies"),
    }
}

#[test]
fn names_to_pokedexes_resolves_in_order() {
    let cat = catalog();
    assert!(catalog_dexes_valid(&cat));
    let names = vec!["random".to_string(), "mewtwo".to_string(), "bulbasaur".to_string()];
    let dexes = names_to_pokedexes(&names, &cat).unwrap();
    assert_eq!(dexes, vec![0, 150, 1]);
    let bad = vec!["pikachu".to_string(), "agumon".to_string()];
    match names_to_pokedexes(&bad, &cat) {
        Err(CoreError::UnknownSpecies { name }) => assert_eq!(name, "agumon"),
        _ => panic!("expected UnknownSpecies"),
    }
}

#[test]
fn get_pokemon_data_is_one_indexed() {
    let cat = catalog();
    let p = get_pokemon_data(2, &cat);
    assert_eq!(p.name, "pikachu");
    assert_eq!(p.pokedex, "25");
}

#[test]
fn random_sentinel_resolves_to_valid_index() {
    // Index 0 resolves to a uniformly random index in [1, 905]; other
    // indices pass through unchanged.
    for _ in 0..100 {
        let resolved = process_pokedexes_list(vec![0, 7, 0]);
        assert_eq!(resolved.len(), 3);
        assert!(1 <= resolved[0] && resolved[0] <= 905);
        assert_eq!(resolved[1], 7);
        assert!(1 <= resolved[2] && resolved[2] <= 905);
    }
}

#[test]
fn forms_list_is_padded_with_regular() {
    let cat = catalog();
    let fs = process_forms_list(&vec![1, 2], &vec!["regular".to_string()], &cat).unwrap();
    assert_eq!(fs, vec!["regular".to_string(), "regular".to_string()]);
}

#[test]
fn forms_list_accepts_known_forms() {
    let cat = catalog();
    let fs = process_forms_list(&vec![2, 3], &vec!["gmax".to_string(), "mega-x".to_string()], &cat)
        .unwrap();
    assert_eq!(fs, vec!["gmax".to_string(), "mega-x".to_string()]);
}

#[test]
fn forms_list_rejects_unknown_form_with_valid_forms() {
    let cat = catalog();
    match process_forms_list(&vec![1], &vec!["gmax".to_string()], &cat) {
        Err(CoreError::InvalidForm { name, valid_forms }) => {
            assert_eq!(name, "bulbasaur");
            assert_eq!(valid_forms, vec!["regular".to_string()]);
        }
        _ => panic!("expected InvalidForm"),
    }
}

#[test]
fn slug_generator_builds_relative_paths() {
    assert_eq!(
        slug_generator(false, "regular".to_string(), "pikachu".to_string(), false),
        "colorscripts/small/regular/pikachu"
    );
    assert_eq!(
        slug_generator(true, "gmax".to_string(), "pikachu".to_string(), true),
        "colorscripts/big/shiny/pikachu-gmax"
    );
}

#[test]
fn slug_list_follows_selection_order() {
    let cat = catalog();
    let slugs = generate_slug_list(
        false,
        &vec!["regular".to_string(), "mega-x".to_string()],
        &vec![2, 3],
        &vec![false, true],
        &cat,
    );
    assert_eq!(
        slugs,
        vec![
            "colorscripts/small/regular/pikachu".to_string(),
            "colorscripts/small/shiny/mewtwo-mega-x".to_string(),
        ]
    );
}

#[test]
fn joined_names_takes_last_path_components() {
    let slugs = vec![
        "colorscripts/small/regular/pikachu".to_string(),
        "colorscripts/big/shiny/mewtwo-mega-x".to_string(),
    ];
    assert_eq!(joined_names(&slugs), "pikachu, mewtwo-mega-x");
}

#[test]
fn fast_path_requires_exact_request_shape() {
    let regular = vec!["regular".to_string()];
    let random = vec!["random".to_string()];
    let zero = vec![0u16];
    assert!(is_fast_path(false, &regular, false, &random, &zero, true));
    assert!(!is_fast_path(true, &regular, false, &random, &zero, true));
    assert!(!is_fast_path(false, &regular, true, &random, &zero, true));
    assert!(!is_fast_path(false, &regular, false, &random, &zero, false));
    assert!(!is_fast_path(false, &regular, false, &random, &vec![5], true));
    assert!(!is_fast_path(false, &vec!["gmax".to_string()], false, &random, &zero, true));
}

#[test]
fn decimal_parsing_matches_expected_values() {
    assert_eq!(parse_u32("123"), Some(123));
    assert_eq!(parse_u32("0"), Some(0));
    assert_eq!(parse_u32(""), None);
    assert_eq!(parse_u32("12a"), None);
    assert_eq!(parse_u32("4294967295"), Some(u32::MAX));
    assert_eq!(parse_u32("4294967296"), None);
    assert_eq!(parse_u16("65535"), Some(u16::MAX));
    assert_eq!(parse_u16("65536"), None);
}

#[test]
fn catalog_validity_checks_pokedex_digits() {
    assert!(catalog_dexes_valid(&catalog()));
    let bad = vec![entry("not-a-number", "glitch", &["regular"])];
    assert!(!catalog_dexes_valid(&bad));
}

#[test]
fn find_pokemon_ci_ignores_ascii_case() {
    let cat = catalog();
    assert_eq!(find_pokemon_ci("PIKACHU", &cat), Some(1));
    assert_eq!(find_pokemon_ci("MewTwo", &cat), Some(2));
    assert_eq!(find_pokemon_ci("arceus", &cat), None);
}

#[test]
fn list_lines_show_pokedex_and_name() {
    let cat = catalog();
    let lines = pokemon_list_lines(&cat);
    assert_eq!(lines[0], "[1] bulbasaur");
    assert_eq!(lines[1], "[25] pikachu");
    assert_eq!(lines[2], "[150] mewtwo");
}
