use crate::error::CoreError;
use crate::text::{
    all_digits, dec_value, lex_le, parse_u32, str_le, strings_view, trim_leading_zeros, trim_zeros,
    u32_of_str,
};
use vstd::prelude::*;
use vstd::string::StringExecFns;

verus! {

/// The english slug of a species in the raw data.
pub struct Slug {
    pub eng: String,
}

/// A form's detail record in the raw data; only the form names are used.
pub struct Forms {}

/// One generation's form table of the raw data, reduced to its form names.
pub struct Generation {
    pub forms: Vec<String>,
}

/// One species entry of the raw data.
pub struct PokemonRaw {
    pub idx: String,
    pub slug: Slug,
    pub gen_8: Generation,
}

/// The raw data as a list of species entries.
pub struct PokemonRawCollection {
    pub entries: Vec<PokemonRaw>,
}

/// One catalog entry: pokedex number (as digits without leading zeros),
/// canonical name, and the known forms with "regular" first.
pub struct Pokemon {
    pub pokedex: String,
    pub name: String,
    pub forms: Vec<String>,
}

/// The catalog as a list of entries ordered by pokedex number.
pub struct PokemonCollection {
    pub pokemons: Vec<Pokemon>,
}

/// The mathematical content of a catalog entry: pokedex digits, name, and
/// form names.
pub open spec fn pokemon_model(p: Pokemon) -> (Seq<char>, Seq<char>, Seq<Seq<char>>) {
    (p.pokedex@, p.name@, strings_view(p.forms@))
}

pub open spec fn pokemons_model(s: Seq<Pokemon>) -> Seq<(Seq<char>, Seq<char>, Seq<Seq<char>>)> {
    Seq::new(s.len(), |i: int| pokemon_model(s[i]))
}

/// A raw form key: the key "$" stands for the regular form.
pub open spec fn map_dollar(names: Seq<Seq<char>>) -> Seq<Seq<char>> {
    Seq::new(
        names.len(),
        |i: int|
            if names[i] == "$"@ {
                "regular"@
            } else {
                names[i]
            },
    )
}

/// Inserts into a run kept in lexicographic order, after any equal element.
pub open spec fn insert_lex(x: Seq<char>, s: Seq<Seq<char>>) -> Seq<Seq<char>>
    decreases s.len(),
{
    if s.len() == 0 {
        seq![x]
    } else if lex_le(s[0], x) {
        seq![s[0]] + insert_lex(x, s.skip(1))
    } else {
        seq![x] + s
    }
}

/// Insertion sort in lexicographic order.
pub open spec fn sort_lex(s: Seq<Seq<char>>) -> Seq<Seq<char>>
    decreases s.len(),
{
    if s.len() == 0 {
        s
    } else {
        insert_lex(s.last(), sort_lex(s.drop_last()))
    }
}

/// Index of the first element equal to `x` at or after `i`, or `s.len()`.
pub open spec fn first_eq_from(s: Seq<Seq<char>>, x: Seq<char>, i: int) -> int
    decreases s.len() - i,
{
    if i < 0 || i >= s.len() {
        s.len() as int
    } else if s[i] == x {
        i
    } else {
        first_eq_from(s, x, i + 1)
    }
}

/// Moves the first occurrence of "regular" to the front, if there is one.
pub open spec fn regular_first(s: Seq<Seq<char>>) -> Seq<Seq<char>> {
    let i = first_eq_from(s, "regular"@, 0);
    if i == s.len() {
        s
    } else {
        seq!["regular"@] + s.take(i) + s.skip(i + 1)
    }
}

/// Form names of a species: the "$" key replaced by "regular", sorted
/// lexicographically, and "regular" moved to the front.
pub open spec fn normalize_forms(names: Seq<Seq<char>>) -> Seq<Seq<char>> {
    regular_first(sort_lex(map_dollar(names)))
}

/// The catalog entry derived from one raw species entry.
pub open spec fn transform_one(p: PokemonRaw) -> (Seq<char>, Seq<char>, Seq<Seq<char>>) {
    (trim_zeros(p.idx@), p.slug.eng@, normalize_forms(strings_view(p.gen_8.forms@)))
}

/// The sort key of a catalog entry: its pokedex number, 0 when the digits
/// do not parse.
pub open spec fn model_key(m: (Seq<char>, Seq<char>, Seq<Seq<char>>)) -> int {
    u32_of_str(m.0)
}

/// Inserts into a run kept ordered by pokedex number, after any entry with
/// the same key.
pub open spec fn insert_dex(
    x: (Seq<char>, Seq<char>, Seq<Seq<char>>),
    s: Seq<(Seq<char>, Seq<char>, Seq<Seq<char>>)>,
) -> Seq<(Seq<char>, Seq<char>, Seq<Seq<char>>)>
    decreases s.len(),
{
    if s.len() == 0 {
        seq![x]
    } else if model_key(s[0]) <= model_key(x) {
        seq![s[0]] + insert_dex(x, s.skip(1))
    } else {
        seq![x] + s
    }
}

/// Insertion sort by pokedex number.
pub open spec fn sort_dex(
    s: Seq<(Seq<char>, Seq<char>, Seq<Seq<char>>)>,
) -> Seq<(Seq<char>, Seq<char>, Seq<Seq<char>>)>
    decreases s.len(),
{
    if s.len() == 0 {
        s
    } else {
        insert_dex(s.last(), sort_dex(s.drop_last()))
    }
}

proof fn lemma_insert_lex_pos(x: Seq<char>, s: Seq<Seq<char>>, pos: int)
    requires
        0 <= pos <= s.len(),
        forall|k: int| 0 <= k < pos ==> lex_le(#[trigger] s[k], x),
        pos < s.len() ==> !lex_le(s[pos], x),
    ensures
        insert_lex(x, s) == s.take(pos) + seq![x] + s.skip(pos),
    decreases s.len(),
{
    if s.len() == 0 {
        assert(s.take(0) + seq![x] + s.skip(0) =~= seq![x]);
    } else if pos == 0 {
        assert(s.take(0) + seq![x] + s.skip(0) =~= seq![x] + s);
    } else {
        assert(lex_le(s[0], x));
        let t = s.skip(1);
        assert forall|k: int| 0 <= k < pos - 1 implies lex_le(#[trigger] t[k], x) by {
            assert(t[k] == s[k + 1]);
        }
        assert(pos - 1 < t.len() ==> !lex_le(t[pos - 1], x));
        lemma_insert_lex_pos(x, t, pos - 1);
        assert(seq![s[0]] + (t.take(pos - 1) + seq![x] + t.skip(pos - 1)) =~= s.take(pos) + seq![x]
            + s.skip(pos));
    }
}

proof fn lemma_insert_dex_pos(
    x: (Seq<char>, Seq<char>, Seq<Seq<char>>),
    s: Seq<(Seq<char>, Seq<char>, Seq<Seq<char>>)>,
    pos: int,
)
    requires
        0 <= pos <= s.len(),
        forall|k: int| 0 <= k < pos ==> model_key(#[trigger] s[k]) <= model_key(x),
        pos < s.len() ==> model_key(s[pos]) > model_key(x),
    ensures
        insert_dex(x, s) == s.take(pos) + seq![x] + s.skip(pos),
    decreases s.len(),
{
    if s.len() == 0 {
        assert(s.take(0) + seq![x] + s.skip(0) =~= seq![x]);
    } else if pos == 0 {
        assert(s.take(0) + seq![x] + s.skip(0) =~= seq![x] + s);
    } else {
        assert(model_key(s[0]) <= model_key(x));
        let t = s.skip(1);
        assert forall|k: int| 0 <= k < pos - 1 implies model_key(#[trigger] t[k]) <= model_key(
            x,
        ) by {
            assert(t[k] == s[k + 1]);
        }
        assert(pos - 1 < t.len() ==> model_key(t[pos - 1]) > model_key(x));
        lemma_insert_dex_pos(x, t, pos - 1);
        assert(seq![s[0]] + (t.take(pos - 1) + seq![x] + t.skip(pos - 1)) =~= s.take(pos) + seq![x]
            + s.skip(pos));
    }
}

fn string_insert_pos(out: &Vec<String>, x: &String) -> (pos: usize)
    ensures
        pos <= out@.len(),
        forall|k: int| 0 <= k < pos ==> lex_le((#[trigger] out@[k])@, x@),
        pos < out@.len() ==> !lex_le(out@[pos as int]@, x@),
{
    let mut j: usize = 0;
    while j < out.len()
        invariant
            j <= out@.len(),
            forall|k: int| 0 <= k < j ==> lex_le((#[trigger] out@[k])@, x@),
        decreases out@.len() - j,
    {
        if !str_le(out[j].as_str(), x.as_str()) {
            return j;
        }
        j += 1;
    }
    j
}

/// Sorts form names lexicographically by insertion, in input order.
fn sort_strings(v: Vec<String>) -> (r: Vec<String>)
    ensures
        strings_view(r@) == sort_lex(strings_view(v@)),
{
    let ghost v0 = v@;
    let ghost sv = strings_view(v@);
    let mut rest = v;
    let mut out: Vec<String> = Vec::new();
    let ghost mut i: int = 0;
    proof {
        assert(rest@ =~= v0.skip(0));
        assert(strings_view(out@) =~= sort_lex(sv.take(0)));
    }
    while rest.len() > 0
        invariant
            0 <= i <= v0.len(),
            sv == strings_view(v0),
            rest@ =~= v0.skip(i),
            strings_view(out@) == sort_lex(sv.take(i)),
        decreases rest@.len(),
    {
        let ghost out_before = out@;
        let x = rest.remove(0);
        assert(x == v0[i]);
        assert(rest@ =~= v0.skip(i + 1));
        let pos = string_insert_pos(&out, &x);
        out.insert(pos, x);
        proof {
            lemma_insert_lex_pos(x@, strings_view(out_before), pos as int);
            assert(strings_view(out@) =~= strings_view(out_before).take(pos as int) + seq![x@]
                + strings_view(out_before).skip(pos as int));
            assert(sv.take(i + 1).drop_last() =~= sv.take(i));
            assert(sv.take(i + 1).last() == sv[i]);
            assert(x@ == sv[i]);
            assert(strings_view(out@) == sort_lex(sv.take(i + 1)));
        }
        proof {
            i = i + 1;
        }
    }
    proof {
        assert(sv.take(v0.len() as int) =~= sv);
    }
    out
}

/// Moves the first "regular" entry of a form list to the front.
fn regular_to_front(v: Vec<String>) -> (r: Vec<String>)
    ensures
        strings_view(r@) == regular_first(strings_view(v@)),
{
    let ghost sv = strings_view(v@);
    let reg = String::from_str("regular");
    let mut i: usize = 0;
    while i < v.len()
        invariant
            i <= v@.len(),
            sv == strings_view(v@),
            reg@ == "regular"@,
            first_eq_from(sv, "regular"@, 0) == first_eq_from(sv, "regular"@, i as int),
        decreases v@.len() - i,
    {
        let hit = v[i].eq(&reg);
        if hit {
            assert(sv[i as int] == "regular"@);
            assert(first_eq_from(sv, "regular"@, i as int) == i);
            let mut w = v;
            let x = w.remove(i);
            w.insert(0, x);
            proof {
                assert(strings_view(w@) =~= seq!["regular"@] + sv.take(i as int) + sv.skip(
                    i as int + 1,
                ));
            }
            return w;
        }
        assert(first_eq_from(sv, "regular"@, i as int) == first_eq_from(
            sv,
            "regular"@,
            i as int + 1,
        ));
        i += 1;
    }
    assert(first_eq_from(sv, "regular"@, i as int) == sv.len());
    v
}

fn dex_key_exec(p: &Pokemon) -> (k: u32)
    ensures
        k as int == model_key(pokemon_model(*p)),
{
    match parse_u32(p.pokedex.as_str()) {
        Some(v) => v,
        None => 0,
    }
}

fn pokemon_insert_pos(out: &Vec<Pokemon>, x: &Pokemon) -> (pos: usize)
    ensures
        pos <= out@.len(),
        forall|k: int|
            0 <= k < pos ==> model_key(pokemon_model(#[trigger] out@[k])) <= model_key(
                pokemon_model(*x),
            ),
        pos < out@.len() ==> model_key(pokemon_model(out@[pos as int])) > model_key(
            pokemon_model(*x),
        ),
{
    let kx = dex_key_exec(x);
    let mut j: usize = 0;
    while j < out.len()
        invariant
            j <= out@.len(),
            kx as int == model_key(pokemon_model(*x)),
            forall|k: int|
                0 <= k < j ==> model_key(pokemon_model(#[trigger] out@[k])) <= model_key(
                    pokemon_model(*x),
                ),
        decreases out@.len() - j,
    {
        let kj = dex_key_exec(&out[j]);
        if kj > kx {
            return j;
        }
        j += 1;
    }
    j
}

/// Sorts catalog entries by pokedex number by insertion, in input order.
fn sort_pokemons(v: Vec<Pokemon>) -> (r: Vec<Pokemon>)
    ensures
        pokemons_model(r@) == sort_dex(pokemons_model(v@)),
{
    let ghost v0 = v@;
    let ghost sv = pokemons_model(v@);
    let mut rest = v;
    let mut out: Vec<Pokemon> = Vec::new();
    let ghost mut i: int = 0;
    proof {
        assert(rest@ =~= v0.skip(0));
        assert(pokemons_model(out@) =~= sort_dex(sv.take(0)));
    }
    while rest.len() > 0
        invariant
            0 <= i <= v0.len(),
            sv == pokemons_model(v0),
            rest@ =~= v0.skip(i),
            pokemons_model(out@) == sort_dex(sv.take(i)),
        decreases rest@.len(),
    {
        let ghost out_before = out@;
        let x = rest.remove(0);
        assert(x == v0[i]);
        assert(rest@ =~= v0.skip(i + 1));
        let pos = pokemon_insert_pos(&out, &x);
        out.insert(pos, x);
        proof {
            assert forall|k: int| 0 <= k < pos implies model_key(
                #[trigger] pokemons_model(out_before)[k],
            ) <= model_key(pokemon_model(v0[i])) by {
                assert(pokemons_model(out_before)[k] == pokemon_model(out_before[k]));
            }
            lemma_insert_dex_pos(pokemon_model(v0[i]), pokemons_model(out_before), pos as int);
            assert(pokemons_model(out@) =~= pokemons_model(out_before).take(pos as int) + seq![
                pokemon_model(v0[i]),
            ] + pokemons_model(out_before).skip(pos as int));
            assert(sv.take(i + 1).drop_last() =~= sv.take(i));
            assert(sv.take(i + 1).last() == sv[i]);
            assert(pokemons_model(out@) == sort_dex(sv.take(i + 1)));
        }
        proof {
            i = i + 1;
        }
    }
    proof {
        assert(sv.take(v0.len() as int) =~= sv);
    }
    out
}

/// The catalog entries derived from the raw species entries: each entry's
/// pokedex digits trimmed of leading zeros, its slug taken as the name, its
/// form keys normalized, and the whole list ordered by pokedex number.
pub fn transform_pokemon_data(entries: &Vec<PokemonRaw>) -> (result: Vec<Pokemon>)
    ensures
        pokemons_model(result@) == sort_dex(
            Seq::new(entries@.len(), |i: int| transform_one(entries@[i])),
        ),
{
    let ghost models = Seq::new(entries@.len(), |i: int| transform_one(entries@[i]));
    let mut unsorted: Vec<Pokemon> = Vec::new();
    let mut i: usize = 0;
    while i < entries.len()
        invariant
            i <= entries@.len(),
            models == Seq::new(entries@.len(), |k: int| transform_one(entries@[k])),
            unsorted@.len() == i,
            forall|k: int|
                0 <= k < i ==> pokemon_model(#[trigger] unsorted@[k]) == transform_one(
                    entries@[k],
                ),
        decreases entries@.len() - i,
    {
        let entry = &entries[i];
        let ghost src = strings_view(entry.gen_8.forms@);
        // Map the raw "$" key to "regular".
        let dollar = String::from_str("$");
        let regular = String::from_str("regular");
        let mut mapped: Vec<String> = Vec::new();
        let mut k: usize = 0;
        while k < entry.gen_8.forms.len()
            invariant
                k <= entry.gen_8.forms@.len(),
                src == strings_view(entry.gen_8.forms@),
                dollar@ == "$"@,
                regular@ == "regular"@,
                mapped@.len() == k,
                forall|j: int| 0 <= j < k ==> (#[trigger] mapped@[j])@ == map_dollar(src)[j],
            decreases entry.gen_8.forms@.len() - k,
        {
            let f = &entry.gen_8.forms[k];
            if f.eq(&dollar) {
                mapped.push(regular.clone());
            } else {
                mapped.push(f.clone());
            }
            k += 1;
        }
        proof {
            assert(strings_view(mapped@) =~= map_dollar(src));
        }
        let sorted = sort_strings(mapped);
        let forms = regular_to_front(sorted);
        let p = Pokemon {
            pokedex: trim_leading_zeros(entry.idx.as_str()),
            name: entry.slug.eng.clone(),
            forms,
        };
        proof {
            assert(pokemon_model(p) == transform_one(entries@[i as int]));
        }
        unsorted.push(p);
        i += 1;
    }
    proof {
        assert(pokemons_model(unsorted@) =~= models);
    }
    sort_pokemons(unsorted)
}

/// Index of the first catalog entry whose name is `name`, at or after `i`,
/// or the catalog's length when there is none.
pub open spec fn first_name_match(s: Seq<Pokemon>, name: Seq<char>, i: int) -> int
    decreases s.len() - i,
{
    if i < 0 || i >= s.len() {
        s.len() as int
    } else if s[i].name@ == name {
        i
    } else {
        first_name_match(s, name, i + 1)
    }
}

/// The first-match scan stays within the catalog's bounds.
pub proof fn lemma_first_name_match_bounds(s: Seq<Pokemon>, name: Seq<char>, i: int)
    requires
        0 <= i <= s.len(),
    ensures
        i <= first_name_match(s, name, i) <= s.len(),
    decreases s.len() - i,
{
    if i < s.len() && s[i].name@ != name {
        lemma_first_name_match_bounds(s, name, i + 1);
    }
}

/// Translates a species name to its pokedex digits: the sentinel "random"
/// becomes "0", a catalog name becomes that entry's pokedex field, and an
/// unknown name fails with `UnknownSpecies`.
pub fn find_pokedex_by_pokemon(pokemon_name: &str, pokemons: &Vec<Pokemon>) -> (r: Result<
    String,
    CoreError,
>)
    ensures
        match r {
            Ok(dex) => {
                if pokemon_name@ == "random"@ {
                    dex@ == "0"@
                } else {
                    let i = first_name_match(pokemons@, pokemon_name@, 0);
                    i < pokemons@.len() && dex@ == pokemons@[i].pokedex@
                }
            },
            Err(e) => {
                &&& pokemon_name@ != "random"@
                &&& first_name_match(pokemons@, pokemon_name@, 0) == pokemons@.len()
                &&& e matches CoreError::UnknownSpecies { name } && name@ == pokemon_name@
            },
        },
{
    let name_s = String::from_str(pokemon_name);
    let rand = String::from_str("random");
    if name_s.eq(&rand) {
        return Ok(String::from_str("0"));
    }
    let mut i: usize = 0;
    while i < pokemons.len()
        invariant
            i <= pokemons@.len(),
            name_s@ == pokemon_name@,
            pokemon_name@ != "random"@,
            first_name_match(pokemons@, pokemon_name@, 0) == first_name_match(
                pokemons@,
                pokemon_name@,
                i as int,
            ),
        decreases pokemons@.len() - i,
    {
        let hit = pokemons[i].name.eq(&name_s);
        if hit {
            assert(first_name_match(pokemons@, pokemon_name@, i as int) == i);
            return Ok(pokemons[i].pokedex.clone());
        }
        assert(first_name_match(pokemons@, pokemon_name@, i as int) == first_name_match(
            pokemons@,
            pokemon_name@,
            i as int + 1,
        ));
        i += 1;
    }
    Err(CoreError::UnknownSpecies { name: name_s })
}

/// The ASCII-lowercased code of a character.
pub open spec fn ascii_lower(c: char) -> int {
    if 65 <= c as int <= 90 {
        c as int + 32
    } else {
        c as int
    }
}

/// Two strings are equal up to ASCII case.
pub open spec fn ci_eq(a: Seq<char>, b: Seq<char>) -> bool {
    a.len() == b.len() && forall|i: int| 0 <= i < a.len() ==> ascii_lower(a[i]) == ascii_lower(b[i])
}

fn str_eq_ci(a: &str, b: &str) -> (r: bool)
    ensures
        r == ci_eq(a@, b@),
{
    let an = a.unicode_len();
    let bn = b.unicode_len();
    if an != bn {
        return false;
    }
    let mut i: usize = 0;
    while i < an
        invariant
            i <= an == a@.len(),
            an == bn == b@.len(),
            forall|k: int| 0 <= k < i ==> ascii_lower(a@[k]) == ascii_lower(b@[k]),
        decreases an - i,
    {
        let ca = a.get_char(i) as u32;
        let cb = b.get_char(i) as u32;
        let la = if 65 <= ca && ca <= 90 {
            ca + 32
        } else {
            ca
        };
        let lb = if 65 <= cb && cb <= 90 {
            cb + 32
        } else {
            cb
        };
        if la != lb {
            return false;
        }
        i += 1;
    }
    true
}

/// Index of the first catalog entry whose name matches up to ASCII case,
/// at or after `i`, or the catalog's length.
pub open spec fn first_ci_match(s: Seq<Pokemon>, name: Seq<char>, i: int) -> int
    decreases s.len() - i,
{
    if i < 0 || i >= s.len() {
        s.len() as int
    } else if ci_eq(s[i].name@, name) {
        i
    } else {
        first_ci_match(s, name, i + 1)
    }
}

/// Finds a species by name, ignoring ASCII case; `None` when no entry
/// matches.
pub fn find_pokemon_ci(name: &str, pokemons: &Vec<Pokemon>) -> (r: Option<usize>)
    ensures
        match r {
            Some(i) => i as int == first_ci_match(pokemons@, name@, 0) && i < pokemons@.len(),
            None => first_ci_match(pokemons@, name@, 0) == pokemons@.len(),
        },
{
    let mut i: usize = 0;
    while i < pokemons.len()
        invariant
            i <= pokemons@.len(),
            first_ci_match(pokemons@, name@, 0) == first_ci_match(pokemons@, name@, i as int),
        decreases pokemons@.len() - i,
    {
        let hit = str_eq_ci(pokemons[i].name.as_str(), name);
        if hit {
            assert(first_ci_match(pokemons@, name@, i as int) == i);
            return Some(i);
        }
        assert(first_ci_match(pokemons@, name@, i as int) == first_ci_match(
            pokemons@,
            name@,
            i as int + 1,
        ));
        i += 1;
    }
    None
}

/// One line of the species listing: the pokedex digits in brackets, then
/// the name.
pub open spec fn list_line(p: Pokemon) -> Seq<char> {
    "["@ + p.pokedex@ + "] "@ + p.name@
}

/// The lines of the species listing, one per catalog entry, in order.
pub fn pokemon_list_lines(pokemons: &Vec<Pokemon>) -> (r: Vec<String>)
    ensures
        r@.len() == pokemons@.len(),
        forall|i: int|
            0 <= i < pokemons@.len() ==> (#[trigger] r@[i])@ == list_line(pokemons@[i]),
{
    let mut out: Vec<String> = Vec::new();
    let mut i: usize = 0;
    while i < pokemons.len()
        invariant
            i <= pokemons@.len(),
            out@.len() == i,
            forall|k: int|
                0 <= k < i ==> (#[trigger] out@[k])@ == list_line(pokemons@[k]),
        decreases pokemons@.len() - i,
    {
        let mut line = String::new();
        line.append("[");
        line.append(pokemons[i].pokedex.as_str());
        line.append("] ");
        line.append(pokemons[i].name.as_str());
        proof {
            assert(line@ =~= list_line(pokemons@[i as int]));
        }
        out.push(line);
        i += 1;
    }
    out
}

/// Reads the catalog entry for a 1-indexed pokedex number.
pub fn get_pokemon_data(pokedex_number: u16, pokemons: &Vec<Pokemon>) -> (p: Pokemon)
    requires
        1 <= pokedex_number <= pokemons@.len(),
    ensures
        pokemon_model(p) == pokemon_model(pokemons@[pokedex_number as int - 1]),
{
    let idx = (pokedex_number - 1) as usize;
    let entry = &pokemons[idx];
    let forms = entry.forms.clone();
    proof {
        assert forall|j: int| 0 <= j < forms@.len() implies forms@[j] == entry.forms@[j] by {
            assert(cloned::<String>(entry.forms@[j], forms@[j]));
        }
        assert(strings_view(forms@) =~= strings_view(entry.forms@));
    }
    Pokemon { pokedex: entry.pokedex.clone(), name: entry.name.clone(), forms }
}

} // verus!
