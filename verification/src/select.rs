use crate::catalog::{
    first_eq_from, first_name_match, get_pokemon_data, find_pokedex_by_pokemon,
    lemma_first_name_match_bounds, Pokemon,
};
use crate::error::CoreError;
use crate::text::{all_digits, dec_value, parse_u16, strings_view};
use rand::Rng;
use vstd::prelude::*;
use vstd::string::{StrSliceExecFns, StringExecFns};

verus! {

/// One more than the largest pokedex number a random draw may yield.
pub const RANDOM_DEX_UPPER: u16 = 906;

/// Relies on `rand::Rng::gen_range` on the thread-local generator: for a
/// non-empty range it returns a value inside the range. The value itself is
/// random, so nothing more is stated of it.
#[verifier::external_body]
fn random_in_range(lo: u16, hi: u16) -> (r: u16)
    requires
        lo < hi,
    ensures
        lo <= r < hi,
{
    rand::thread_rng().gen_range(lo..hi)
}

/// Resolves the random sentinel: every index 0 independently becomes a
/// uniformly drawn index in [1, 906); every other index is kept as it is.
pub fn process_pokedexes_list(pokedexes: Vec<u16>) -> (r: Vec<u16>)
    ensures
        r@.len() == pokedexes@.len(),
        forall|i: int|
            0 <= i < pokedexes@.len() ==> {
                &&& (pokedexes@[i] != 0 ==> r@[i] == pokedexes@[i])
                &&& (pokedexes@[i] == 0 ==> 1 <= r@[i] < RANDOM_DEX_UPPER)
            },
{
    let mut out: Vec<u16> = Vec::new();
    let mut i: usize = 0;
    while i < pokedexes.len()
        invariant
            i <= pokedexes@.len(),
            out@.len() == i,
            forall|k: int|
                0 <= k < i ==> {
                    &&& (pokedexes@[k] != 0 ==> #[trigger] out@[k] == pokedexes@[k])
                    &&& (pokedexes@[k] == 0 ==> 1 <= out@[k] < RANDOM_DEX_UPPER)
                },
        decreases pokedexes@.len() - i,
    {
        let dex = pokedexes[i];
        if dex == 0 {
            out.push(random_in_range(1, RANDOM_DEX_UPPER));
        } else {
            out.push(dex);
        }
        i += 1;
    }
    out
}

/// The requested form for item `i`: the given form, or "regular" when the
/// form list is shorter than the item count.
pub open spec fn padded_form(forms: Seq<String>, i: int) -> Seq<char> {
    if 0 <= i < forms.len() {
        forms[i]@
    } else {
        "regular"@
    }
}

/// The form is among the species' known forms.
pub open spec fn form_ok(p: Pokemon, f: Seq<char>) -> bool {
    first_eq_from(strings_view(p.forms@), f, 0) < p.forms@.len()
}

/// Index of the first item whose requested form the species does not know,
/// or the item count when every form is valid.
pub open spec fn first_bad_form(
    dexes: Seq<u16>,
    forms: Seq<String>,
    ps: Seq<Pokemon>,
    i: int,
) -> int
    decreases dexes.len() - i,
{
    if i < 0 || i >= dexes.len() {
        dexes.len() as int
    } else if !form_ok(ps[dexes[i] - 1], padded_form(forms, i)) {
        i
    } else {
        first_bad_form(dexes, forms, ps, i + 1)
    }
}

fn vec_contains_string(v: &Vec<String>, x: &String) -> (b: bool)
    ensures
        b == (first_eq_from(strings_view(v@), x@, 0) < v@.len()),
{
    let ghost sv = strings_view(v@);
    let mut i: usize = 0;
    while i < v.len()
        invariant
            i <= v@.len(),
            sv == strings_view(v@),
            first_eq_from(sv, x@, 0) == first_eq_from(sv, x@, i as int),
        decreases v@.len() - i,
    {
        let hit = v[i].eq(x);
        if hit {
            assert(first_eq_from(sv, x@, i as int) == i);
            return true;
        }
        assert(first_eq_from(sv, x@, i as int) == first_eq_from(sv, x@, i as int + 1));
        i += 1;
    }
    assert(first_eq_from(sv, x@, i as int) == sv.len());
    false
}

/// Pads the form list with "regular" to the item count and validates each
/// (species, form) pair, failing with `InvalidForm` — which carries the
/// species' known forms — on the first pair whose form the species lacks.
pub fn process_forms_list(pokedexes: &Vec<u16>, forms: &Vec<String>, pokemons: &Vec<Pokemon>) -> (r:
    Result<Vec<String>, CoreError>)
    requires
        forall|i: int| 0 <= i < pokedexes@.len() ==> 1 <= #[trigger] pokedexes@[i] <= pokemons@.len(),
    ensures
        match r {
            Ok(fs) => {
                &&& first_bad_form(pokedexes@, forms@, pokemons@, 0) == pokedexes@.len()
                &&& fs@.len() == pokedexes@.len()
                &&& forall|i: int|
                    0 <= i < pokedexes@.len() ==> (#[trigger] fs@[i])@ == padded_form(forms@, i)
            },
            Err(e) => {
                let j = first_bad_form(pokedexes@, forms@, pokemons@, 0);
                &&& j < pokedexes@.len()
                &&& e matches CoreError::InvalidForm { name, valid_forms }
                &&& name@ == pokemons@[pokedexes@[j] - 1].name@
                &&& strings_view(valid_forms@) == strings_view(pokemons@[pokedexes@[j] - 1].forms@)
            },
        },
{
    let mut fs: Vec<String> = Vec::new();
    let mut k: usize = 0;
    while k < forms.len() && k < pokedexes.len()
        invariant
            k <= forms@.len(),
            k <= pokedexes@.len(),
            fs@.len() == k,
            forall|i: int|
                0 <= i < k ==> (#[trigger] fs@[i])@ == padded_form(forms@, i),
        decreases forms@.len() - k,
    {
        fs.push(forms[k].clone());
        k += 1;
    }
    while fs.len() < pokedexes.len()
        invariant
            fs@.len() <= pokedexes@.len(),
            forms@.len() <= fs@.len() || fs@.len() >= pokedexes@.len(),
            forall|i: int|
                0 <= i < fs@.len() ==> (#[trigger] fs@[i])@ == padded_form(forms@, i),
        decreases pokedexes@.len() - fs@.len(),
    {
        assert(fs@.len() >= forms@.len());
        fs.push(String::from_str("regular"));
    }
    let mut i: usize = 0;
    while i < pokedexes.len()
        invariant
            i <= pokedexes@.len(),
            fs@.len() == pokedexes@.len(),
            forall|k: int|
                0 <= k < fs@.len() ==> (#[trigger] fs@[k])@ == padded_form(forms@, k),
            forall|k: int|
                0 <= k < pokedexes@.len() ==> 1 <= #[trigger] pokedexes@[k] <= pokemons@.len(),
            first_bad_form(pokedexes@, forms@, pokemons@, 0) == first_bad_form(
                pokedexes@,
                forms@,
                pokemons@,
                i as int,
            ),
        decreases pokedexes@.len() - i,
    {
        let entry = get_pokemon_data(pokedexes[i], pokemons);
        let present = vec_contains_string(&entry.forms, &fs[i]);
        proof {
            assert(strings_view(entry.forms@) == strings_view(
                pokemons@[pokedexes@[i as int] - 1].forms@,
            ));
        }
        if !present {
            proof {
                assert(fs@[i as int]@ == padded_form(forms@, i as int));
                assert(!form_ok(pokemons@[pokedexes@[i as int] - 1], padded_form(forms@, i as int)));
                assert(first_bad_form(pokedexes@, forms@, pokemons@, i as int) == i);
                assert(entry.name@ == pokemons@[pokedexes@[i as int] - 1].name@);
            }
            return Err(
                CoreError::InvalidForm { name: entry.name, valid_forms: entry.forms },
            );
        }
        assert(first_bad_form(pokedexes@, forms@, pokemons@, i as int) == first_bad_form(
            pokedexes@,
            forms@,
            pokemons@,
            i as int + 1,
        ));
        i += 1;
    }
    Ok(fs)
}

/// The relative path of a rendered artwork: density, shininess, and the
/// species name with a form suffix for any form but the regular one.
pub open spec fn slug_spec(big: bool, form: Seq<char>, name: Seq<char>, shiny: bool) -> Seq<char> {
    "colorscripts/"@ + (if big {
        "big"@
    } else {
        "small"@
    }) + "/"@ + (if shiny {
        "shiny"@
    } else {
        "regular"@
    }) + "/"@ + name + (if form == "regular"@ {
        Seq::<char>::empty()
    } else {
        "-"@ + form
    })
}

/// Builds the relative path for one selection.
pub fn slug_generator(big: bool, form: String, name: String, shiny: bool) -> (r: String)
    ensures
        r@ == slug_spec(big, form@, name@, shiny),
{
    let mut out = String::new();
    out.append("colorscripts/");
    if big {
        out.append("big");
    } else {
        out.append("small");
    }
    out.append("/");
    if shiny {
        out.append("shiny");
    } else {
        out.append("regular");
    }
    out.append("/");
    out.append(name.as_str());
    let reg = String::from_str("regular");
    let is_regular = form.eq(&reg);
    if !is_regular {
        out.append("-");
        out.append(form.as_str());
    }
    proof {
        assert(out@ =~= slug_spec(big, form@, name@, shiny));
    }
    out
}

/// Builds the relative path of every selection, in order: one per resolved
/// index, with its form and its independent shininess outcome.
pub fn generate_slug_list(
    big: bool,
    forms: &Vec<String>,
    pokedexes: &Vec<u16>,
    shiny: &Vec<bool>,
    pokemons: &Vec<Pokemon>,
) -> (r: Vec<String>)
    requires
        forms@.len() == pokedexes@.len(),
        shiny@.len() == pokedexes@.len(),
        forall|i: int| 0 <= i < pokedexes@.len() ==> 1 <= #[trigger] pokedexes@[i] <= pokemons@.len(),
    ensures
        r@.len() == pokedexes@.len(),
        forall|i: int|
            0 <= i < pokedexes@.len() ==> (#[trigger] r@[i])@ == slug_spec(
                big,
                forms@[i]@,
                pokemons@[pokedexes@[i] - 1].name@,
                shiny@[i],
            ),
{
    let mut out: Vec<String> = Vec::new();
    let mut i: usize = 0;
    while i < pokedexes.len()
        invariant
            i <= pokedexes@.len(),
            forms@.len() == pokedexes@.len(),
            shiny@.len() == pokedexes@.len(),
            forall|k: int|
                0 <= k < pokedexes@.len() ==> 1 <= #[trigger] pokedexes@[k] <= pokemons@.len(),
            out@.len() == i,
            forall|k: int|
                0 <= k < i ==> (#[trigger] out@[k])@ == slug_spec(
                    big,
                    forms@[k]@,
                    pokemons@[pokedexes@[k] - 1].name@,
                    shiny@[k],
                ),
        decreases pokedexes@.len() - i,
    {
        let entry = get_pokemon_data(pokedexes[i], pokemons);
        let slug = slug_generator(big, forms[i].clone(), entry.name, shiny[i]);
        out.push(slug);
        i += 1;
    }
    out
}

/// Every catalog entry's pokedex field is a digit string that fits a u16.
pub open spec fn catalog_dex_ok(s: Seq<Pokemon>) -> bool {
    forall|i: int|
        0 <= i < s.len() ==> {
            &&& (#[trigger] s[i]).pokedex@.len() > 0
            &&& all_digits(s[i].pokedex@)
            &&& dec_value(s[i].pokedex@) <= u16::MAX
        }
}

proof fn lemma_dex_ok_at(s: Seq<Pokemon>, i: int)
    requires
        catalog_dex_ok(s),
        0 <= i < s.len(),
    ensures
        s[i].pokedex@.len() > 0,
        all_digits(s[i].pokedex@),
        dec_value(s[i].pokedex@) <= u16::MAX,
{
}

/// Checks that every catalog entry's pokedex field parses as a u16.
pub fn catalog_dexes_valid(pokemons: &Vec<Pokemon>) -> (b: bool)
    ensures
        b == catalog_dex_ok(pokemons@),
{
    let mut i: usize = 0;
    while i < pokemons.len()
        invariant
            i <= pokemons@.len(),
            forall|k: int|
                0 <= k < i ==> {
                    &&& (#[trigger] pokemons@[k]).pokedex@.len() > 0
                    &&& all_digits(pokemons@[k].pokedex@)
                    &&& dec_value(pokemons@[k].pokedex@) <= u16::MAX
                },
        decreases pokemons@.len() - i,
    {
        let parsed = parse_u16(pokemons[i].pokedex.as_str());
        if parsed.is_none() {
            return false;
        }
        i += 1;
    }
    true
}

/// The name resolves: it is the random sentinel or a catalog name.
pub open spec fn name_found(ps: Seq<Pokemon>, name: Seq<char>) -> bool {
    name == "random"@ || first_name_match(ps, name, 0) < ps.len()
}

/// The index a resolved name denotes: 0 for the random sentinel, else the
/// pokedex number of the first catalog entry with that name.
pub open spec fn name_dex(ps: Seq<Pokemon>, name: Seq<char>) -> int {
    if name == "random"@ {
        0
    } else {
        dec_value(ps[first_name_match(ps, name, 0)].pokedex@)
    }
}

/// Index of the first name with no catalog entry, or the name count.
pub open spec fn first_unknown(names: Seq<String>, ps: Seq<Pokemon>, i: int) -> int
    decreases names.len() - i,
{
    if i < 0 || i >= names.len() {
        names.len() as int
    } else if !name_found(ps, names[i]@) {
        i
    } else {
        first_unknown(names, ps, i + 1)
    }
}

/// Translates a list of names to pokedex indices, with 0 for the random
/// sentinel, failing with `UnknownSpecies` on the first name that has no
/// catalog entry.
pub fn names_to_pokedexes(names: &Vec<String>, pokemons: &Vec<Pokemon>) -> (r: Result<
    Vec<u16>,
    CoreError,
>)
    requires
        catalog_dex_ok(pokemons@),
    ensures
        match r {
            Ok(dexes) => {
                &&& first_unknown(names@, pokemons@, 0) == names@.len()
                &&& dexes@.len() == names@.len()
                &&& forall|i: int|
                    0 <= i < names@.len() ==> #[trigger] dexes@[i] == name_dex(
                        pokemons@,
                        names@[i]@,
                    )
            },
            Err(e) => {
                let j = first_unknown(names@, pokemons@, 0);
                &&& j < names@.len()
                &&& e matches CoreError::UnknownSpecies { name }
                &&& name@ == names@[j]@
            },
        },
{
    let mut out: Vec<u16> = Vec::new();
    let mut i: usize = 0;
    while i < names.len()
        invariant
            i <= names@.len(),
            catalog_dex_ok(pokemons@),
            out@.len() == i,
            forall|k: int|
                0 <= k < i ==> #[trigger] out@[k] == name_dex(pokemons@, names@[k]@),
            first_unknown(names@, pokemons@, 0) == first_unknown(names@, pokemons@, i as int),
        decreases names@.len() - i,
    {
        match find_pokedex_by_pokemon(names[i].as_str(), pokemons) {
            Ok(dex) => {
                proof {
                    if names@[i as int]@ == "random"@ {
                        reveal_strlit("0");
                        assert(dex@ =~= seq!['0']);
                        assert(dex@.drop_last() =~= Seq::<char>::empty());
                        assert(dec_value(Seq::<char>::empty()) == 0);
                        assert(dex@.last() == '0');
                        assert(dec_value(dex@) == 0);
                        assert(all_digits(dex@));
                    } else {
                        let m = first_name_match(pokemons@, names@[i as int]@, 0);
                        lemma_first_name_match_bounds(pokemons@, names@[i as int]@, 0);
                        assert(0 <= m < pokemons@.len());
                        assert(dex@ == pokemons@[m].pokedex@);
                        lemma_dex_ok_at(pokemons@, m);
                    }
                }
                match parse_u16(dex.as_str()) {
                    Some(v) => {
                        assert(v as int == name_dex(pokemons@, names@[i as int]@));
                        out.push(v);
                    },
                    None => {
                        proof {
                            assert(false);
                        }
                    },
                }
                assert(first_unknown(names@, pokemons@, i as int) == first_unknown(
                    names@,
                    pokemons@,
                    i as int + 1,
                ));
            },
            Err(e) => {
                assert(first_unknown(names@, pokemons@, i as int) == i);
                match e {
                    CoreError::UnknownSpecies { name } => {
                        return Err(CoreError::UnknownSpecies { name });
                    },
                    _ => {
                        proof {
                            assert(false);
                        }
                    },
                }
            },
        }
        i += 1;
    }
    Ok(out)
}

/// The request shape that the quick single-random path serves: one item,
/// regular form, random species, zero shiny chance, compact density, name
/// shown.
pub fn is_fast_path(
    big: bool,
    forms: &Vec<String>,
    hide_name: bool,
    names: &Vec<String>,
    pokedexes: &Vec<u16>,
    shiny_zero: bool,
) -> (b: bool)
    ensures
        b == {
            &&& !big
            &&& !hide_name
            &&& shiny_zero
            &&& forms@.len() == 1
            &&& names@.len() == 1
            &&& pokedexes@.len() == 1
            &&& forms@[0]@ == "regular"@
            &&& names@[0]@ == "random"@
            &&& pokedexes@[0] == 0
        },
{
    if big || hide_name || !shiny_zero {
        return false;
    }
    if forms.len() != 1 || names.len() != 1 || pokedexes.len() != 1 {
        return false;
    }
    if pokedexes[0] != 0 {
        return false;
    }
    let reg = String::from_str("regular");
    let rand_name = String::from_str("random");
    let form_ok_ = forms[0].eq(&reg);
    let name_ok = names[0].eq(&rand_name);
    form_ok_ && name_ok
}

/// The characters after the last '/' of a path.
pub open spec fn after_last_slash(s: Seq<char>) -> Seq<char>
    decreases s.len(),
{
    if s.len() == 0 {
        s
    } else if s.last() == '/' {
        Seq::empty()
    } else {
        after_last_slash(s.drop_last()) + seq![s.last()]
    }
}

pub open spec fn join_names_prefix(slugs: Seq<Seq<char>>, n: int) -> Seq<char>
    decreases n,
{
    if n <= 0 {
        Seq::empty()
    } else if n == 1 {
        after_last_slash(slugs[0])
    } else {
        join_names_prefix(slugs, n - 1) + ", "@ + after_last_slash(slugs[n - 1])
    }
}

/// The displayed names of the selections: the last path component of every
/// slug, joined with ", ".
pub open spec fn join_names(slugs: Seq<Seq<char>>) -> Seq<char> {
    join_names_prefix(slugs, slugs.len() as int)
}

proof fn lemma_after_last_slash_suffix(s: Seq<char>, i: int)
    requires
        0 <= i <= s.len(),
        forall|j: int| i <= j < s.len() ==> s[j] != '/',
    ensures
        after_last_slash(s) == after_last_slash(s.take(i)) + s.skip(i),
    decreases s.len() - i,
{
    if i == s.len() {
        assert(s.take(i) =~= s);
        assert(after_last_slash(s) + s.skip(i) =~= after_last_slash(s));
    } else {
        assert(s.last() != '/');
        lemma_after_last_slash_suffix(s.drop_last(), i);
        assert(s.drop_last().take(i) =~= s.take(i));
        assert(after_last_slash(s.drop_last()).len() >= 0);
        assert((after_last_slash(s.take(i)) + s.drop_last().skip(i)) + seq![s.last()]
            =~= after_last_slash(s.take(i)) + s.skip(i));
    }
}

fn basename_of(s: &str) -> (r: String)
    ensures
        r@ == after_last_slash(s@),
{
    let n = s.unicode_len();
    let mut cut: usize = 0;
    let mut j: usize = 0;
    while j < n
        invariant
            j <= n == s@.len(),
            cut <= j,
            cut > 0 ==> s@[cut - 1] == '/',
            forall|k: int| cut <= k < j ==> s@[k] != '/',
        decreases n - j,
    {
        if s.get_char(j) == '/' {
            cut = j + 1;
        }
        j += 1;
    }
    proof {
        lemma_after_last_slash_suffix(s@, cut as int);
        if cut == 0 {
            assert(s@.take(0).len() == 0);
        } else {
            assert(s@.take(cut as int).last() == '/');
        }
        assert(after_last_slash(s@) =~= s@.skip(cut as int));
    }
    let sub = s.substring_char(cut, n);
    proof {
        assert(sub@ =~= s@.skip(cut as int));
    }
    sub.to_owned()
}

/// Joins the last path component of every slug with ", ", in order.
pub fn joined_names(slugs: &Vec<String>) -> (r: String)
    ensures
        r@ == join_names(strings_view(slugs@)),
{
    let ghost sv = strings_view(slugs@);
    let mut out = String::new();
    let mut i: usize = 0;
    while i < slugs.len()
        invariant
            i <= slugs@.len(),
            sv == strings_view(slugs@),
            out@ == join_names_prefix(sv, i as int),
        decreases slugs@.len() - i,
    {
        if i > 0 {
            out.append(", ");
        }
        let base = basename_of(slugs[i].as_str());
        out.append(base.as_str());
        proof {
            assert(out@ =~= join_names_prefix(sv, i as int + 1));
        }
        i += 1;
    }
    out
}

} // verus!
