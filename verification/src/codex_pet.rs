//! Custom pets the user drops into the codex pets directory: their
//! metadata, the URLs their sprites load from, and their order.
use vstd::prelude::*;
use crate::json::{Json, JsonV, str_at, str_at_exec};
use crate::text::{chars_of, string_of, cat, find, find_exec, starts_with, starts_with_exec};
use crate::types::CodexPetMeta;
use crate::metrics::str_or;
use crate::claude_stats::text_less;

verus! {

broadcast use vstd::string::group_string_axioms;

// ---------------------------------------------------------------------
// Metadata
// ---------------------------------------------------------------------

/// What a pet's `pet.json` says: its id (else the folder's name), display
/// name (else the id), description (else empty) and spritesheet path
/// (else `spritesheet.webp`).
#[derive(Debug, PartialEq, Eq)]
pub struct PetFields {
    pub id: String,
    pub display_name: String,
    pub description: String,
    pub sheet_path: String,
}

pub open spec fn pet_id(meta: JsonV, folder: Seq<char>) -> Seq<char> {
    str_or(meta, "id"@, folder)
}

/// Reads a pet's metadata (see `PetFields`); `folder` is the name of its
/// folder.
pub fn pet_fields(meta: &Json, folder: &str) -> (r: PetFields)
    ensures
        r.id@ == pet_id(meta@, folder@),
        r.display_name@ == str_or(meta@, "displayName"@, pet_id(meta@, folder@)),
        r.description@ == str_or(meta@, "description"@, Seq::empty()),
        r.sheet_path@ == str_or(meta@, "spritesheetPath"@, "spritesheet.webp"@),
{
    let id: String = match str_at_exec(meta, "id") {
        Some(s) => s.to_string(),
        None => folder.to_string(),
    };
    let display_name: String = match str_at_exec(meta, "displayName") {
        Some(s) => s.to_string(),
        None => id.clone(),
    };
    let description: String = match str_at_exec(meta, "description") {
        Some(s) => s.to_string(),
        None => String::new(),
    };
    let sheet_path: String = match str_at_exec(meta, "spritesheetPath") {
        Some(s) => s.to_string(),
        None => "spritesheet.webp".to_string(),
    };
    PetFields { id, display_name, description, sheet_path }
}

// ---------------------------------------------------------------------
// Path components
// ---------------------------------------------------------------------

/// The parts of a path between its slashes.
pub open spec fn slash_parts(p: Seq<char>) -> Seq<Seq<char>>
    decreases p.len(),
{
    match find(p, "/"@) {
        Some(i) => if 0 <= i < p.len() {
            seq![p.take(i)] + slash_parts(p.skip(i + 1))
        } else {
            seq![p]
        },
        None => seq![p],
    }
}

/// The parts kept as components: none empty, and `.` only as the first
/// part of a relative path (`first`).
pub open spec fn kept_parts(parts: Seq<Seq<char>>, first: bool) -> Seq<Seq<char>>
    decreases parts.len(),
{
    if parts.len() == 0 {
        Seq::empty()
    } else {
        let p = parts[0];
        let rest = kept_parts(parts.drop_first(), false);
        if p.len() > 0 && (p != "."@ || first) {
            seq![p] + rest
        } else {
            rest
        }
    }
}

/// The components of a Unix path, as `Path::components` gives them: `/`
/// for the root, then its parts without empty ones and inner `.`.
pub open spec fn components(p: Seq<char>) -> Seq<Seq<char>> {
    if starts_with(p, "/"@) {
        seq!["/"@] + kept_parts(slash_parts(p.skip(1)), false)
    } else {
        kept_parts(slash_parts(p), true)
    }
}

/// `Path::strip_prefix`: the components after those of `base`, when they
/// begin the path's.
pub open spec fn strip_components(p: Seq<char>, base: Seq<char>) -> Option<Seq<Seq<char>>> {
    let pc = components(p);
    let bc = components(base);
    if bc.len() <= pc.len() && pc.take(bc.len() as int) == bc {
        Some(pc.skip(bc.len() as int))
    } else {
        None
    }
}

proof fn lemma_find_slash(p: Seq<char>)
    ensures
        find(p, "/"@) matches Some(i) ==> 0 <= i < p.len() && p[i] == '/',
{
    reveal_strlit("/");
    crate::text::lemma_find_from_bounds(p, "/"@, 0);
    match find(p, "/"@) {
        Some(i) => {
            assert(p.subrange(i, i + 1) == "/"@);
            assert(p.subrange(i, i + 1)[0] == p[i]);
        },
        None => {},
    }
}

fn copy_chars(v: &Vec<char>) -> (r: Vec<char>)
    ensures
        r@ == v@,
{
    crate::text::slice_of(v, 0, v.len())
}

fn slash_parts_exec(p: &Vec<char>) -> (r: Vec<Vec<char>>)
    ensures
        crate::text::views(r@) == slash_parts(p@),
    decreases p.len(),
{
    let slash = chars_of("/");
    proof {
        lemma_find_slash(p@);
    }
    match find_exec(p, &slash) {
        Some(i) => {
            let head = crate::text::take_exec(p, i);
            let tail = crate::text::skip_past(p, i, 1);
            let rest = slash_parts_exec(&tail);
            let mut out: Vec<Vec<char>> = Vec::new();
            out.push(head);
            let mut k: usize = 0;
            while k < rest.len()
                invariant
                    k <= rest.len(),
                    out@.len() == k + 1,
                    crate::text::views(out@) =~= seq![p@.take(i as int)] + crate::text::views(
                        rest@,
                    ).take(k as int),
                decreases rest.len() - k,
            {
                let ghost before = out@;
                let c = copy_chars(&rest[k]);
                out.push(c);
                assert(crate::text::views(out@) =~= crate::text::views(before).push(c@));
                assert(crate::text::views(rest@)[k as int] == rest@[k as int]@);
                assert(crate::text::views(rest@).take(k + 1) =~= crate::text::views(rest@).take(
                    k as int,
                ).push(rest@[k as int]@));
                k = k + 1;
            }
            assert(crate::text::views(rest@).take(rest.len() as int) =~= crate::text::views(rest@));
            out
        },
        None => {
            let mut out: Vec<Vec<char>> = Vec::new();
            out.push(copy_chars(p));
            assert(crate::text::views(out@) =~= seq![p@]);
            out
        },
    }
}

fn kept_parts_exec(parts: &Vec<Vec<char>>, first: bool) -> (r: Vec<Vec<char>>)
    ensures
        crate::text::views(r@) == kept_parts(crate::text::views(parts@), first),
{
    let ghost pv = crate::text::views(parts@);
    let dot = chars_of(".");
    proof {
        reveal_strlit(".");
    }
    let mut out: Vec<Vec<char>> = Vec::new();
    let mut i: usize = parts.len();
    // Build from the end: kept_parts(parts[i..], i == 0 && first).
    assert(pv.skip(parts.len() as int) =~= Seq::<Seq<char>>::empty());
    while i > 0
        invariant
            i <= parts.len(),
            pv == crate::text::views(parts@),
            pv.len() == parts.len(),
            dot@ == "."@,
            crate::text::views(out@).reverse() == kept_parts(pv.skip(i as int), false),
        decreases i,
    {
        i = i - 1;
        let p = &parts[i];
        assert(pv[i as int] == p@);
        assert(pv.skip(i as int).drop_first() =~= pv.skip(i + 1));
        assert(pv.skip(i as int)[0] == p@);
        let keep = p.len() > 0 && !crate::json::same_chars(p, &dot);
        if keep {
            let ghost before = out@;
            out.push(copy_chars(p));
            assert(crate::text::views(out@).reverse() =~= seq![p@] + crate::text::views(
                before,
            ).reverse());
        }
    }
    // Now out (reversed) is kept_parts(pv, false); adjust for a leading `.`.
    let mut res: Vec<Vec<char>> = Vec::new();
    let ghost ov = crate::text::views(out@);
    let mut k: usize = out.len();
    while k > 0
        invariant
            k <= out.len(),
            ov == crate::text::views(out@),
            crate::text::views(res@) == ov.reverse().take(out.len() - k),
        decreases k,
    {
        k = k - 1;
        let ghost before = res@;
        let c = copy_chars(&out[k]);
        res.push(c);
        assert(crate::text::views(res@) =~= crate::text::views(before).push(c@));
        assert(ov[k as int] == out@[k as int]@);
        assert(ov.reverse()[out.len() - 1 - k] == ov[k as int]);
        assert(ov.reverse().take(out.len() - k) =~= ov.reverse().take(out.len() - k - 1).push(
            ov[k as int],
        ));
        assert(crate::text::views(res@) =~= ov.reverse().take(out.len() - k));
    }
    assert(ov.reverse().take(out.len() as int) =~= ov.reverse());
    assert(pv.skip(0) =~= pv);
    if first && parts.len() > 0 && crate::json::same_chars(&parts[0], &dot) {
        proof {
            reveal_strlit(".");
            assert(pv[0] == "."@);
            assert(kept_parts(pv, true) == seq![pv[0]] + kept_parts(pv.drop_first(), false));
            assert(kept_parts(pv, false) == kept_parts(pv.drop_first(), false));
        }
        let mut with_dot: Vec<Vec<char>> = Vec::new();
        with_dot.push(copy_chars(&dot));
        let mut m: usize = 0;
        while m < res.len()
            invariant
                m <= res.len(),
                crate::text::views(with_dot@) =~= seq!["."@] + crate::text::views(res@).take(
                    m as int,
                ),
            decreases res.len() - m,
        {
            let ghost before = with_dot@;
            let c = copy_chars(&res[m]);
            with_dot.push(c);
            assert(crate::text::views(with_dot@) =~= crate::text::views(before).push(c@));
            assert(crate::text::views(res@)[m as int] == res@[m as int]@);
            assert(crate::text::views(res@).take(m + 1) =~= crate::text::views(res@).take(
                m as int,
            ).push(res@[m as int]@));
            m = m + 1;
        }
        assert(crate::text::views(res@).take(res.len() as int) =~= crate::text::views(res@));
        with_dot
    } else {
        proof {
            reveal_strlit(".");
            if parts.len() > 0 {
                assert(pv[0] != "."@ || !first);
                assert(kept_parts(pv, true) == kept_parts(pv, false) || !first);
            }
        }
        res
    }
}


/// The components of a path (see `components`).
fn components_exec(p: &Vec<char>) -> (r: Vec<Vec<char>>)
    ensures
        crate::text::views(r@) == components(p@),
{
    let slash = chars_of("/");
    if starts_with_exec(p, &slash) {
        proof {
            reveal_strlit("/");
        }
        let rest = kept_parts_exec(&slash_parts_exec(&crate::text::skip_exec(p, 1)), false);
        let mut out: Vec<Vec<char>> = Vec::new();
        out.push(slash);
        let mut k: usize = 0;
        while k < rest.len()
            invariant
                k <= rest.len(),
                crate::text::views(out@) =~= seq!["/"@] + crate::text::views(rest@).take(k as int),
            decreases rest.len() - k,
        {
            let ghost before = out@;
            let c = copy_chars(&rest[k]);
            out.push(c);
            assert(crate::text::views(out@) =~= crate::text::views(before).push(c@));
            assert(crate::text::views(rest@)[k as int] == rest@[k as int]@);
            assert(crate::text::views(rest@).take(k + 1) =~= crate::text::views(rest@).take(
                k as int,
            ).push(rest@[k as int]@));
            k = k + 1;
        }
        assert(crate::text::views(rest@).take(rest.len() as int) =~= crate::text::views(rest@));
        out
    } else {
        kept_parts_exec(&slash_parts_exec(p), true)
    }
}

/// What `utf8_percent_encode(s, NON_ALPHANUMERIC)` writes.
pub uninterp spec fn percent_encoded(s: Seq<char>) -> Seq<char>;

/// An ASCII letter or digit.
pub open spec fn ascii_alnum(c: char) -> bool {
    ('a' <= c && c <= 'z') || ('A' <= c && c <= 'Z') || ('0' <= c && c <= '9')
}

/// Calls `percent_encoding::utf8_percent_encode(s, NON_ALPHANUMERIC)`.
/// Claimed: the result is `percent_encoded(s)`, a function of `s` alone;
/// and text made of ASCII letters and digits is written unchanged (the
/// set encodes every other byte only).
#[verifier::external_body]
fn percent_encode_part(s: &str) -> (r: String)
    ensures
        r@ == percent_encoded(s@),
        (forall|i: int| 0 <= i < s@.len() ==> ascii_alnum(#[trigger] s@[i])) ==> r@ == s@,
{
    percent_encoding::utf8_percent_encode(s, percent_encoding::NON_ALPHANUMERIC).to_string()
}

/// Parts joined by slashes.
pub open spec fn join_slash(parts: Seq<Seq<char>>) -> Seq<char>
    decreases parts.len(),
{
    if parts.len() == 0 {
        Seq::empty()
    } else if parts.len() == 1 {
        parts[0]
    } else {
        join_slash(parts.drop_last()) + "/"@ + parts.last()
    }
}

/// The URL a pet file loads from: the `codexpet` scheme's root (an
/// `http://codexpet.localhost` origin on Windows), then the file's path
/// below the pets directory with each component percent-encoded; empty
/// when the file lies outside that directory.
pub open spec fn pet_url(root: Seq<char>, abs: Seq<char>, windows: bool) -> Seq<char> {
    match strip_components(abs, root) {
        None => Seq::empty(),
        Some(rest) => (if windows {
            "http://codexpet.localhost"@
        } else {
            "codexpet://localhost"@
        }) + "/"@ + join_slash(rest.map_values(|c: Seq<char>| percent_encoded(c))),
    }
}

/// The URL a pet file loads from (see `pet_url`).
pub fn codex_asset_url(root: &str, abs: &str, windows: bool) -> (r: String)
    ensures
        r@ == pet_url(root@, abs@, windows),
{
    let pc = components_exec(&chars_of(abs));
    let bc = components_exec(&chars_of(root));
    let ghost pv = crate::text::views(pc@);
    let ghost bv = crate::text::views(bc@);
    if bc.len() > pc.len() {
        return String::new();
    }
    let mut k: usize = 0;
    while k < bc.len()
        invariant
            k <= bc.len() <= pc.len(),
            pv == crate::text::views(pc@),
            bv == crate::text::views(bc@),
            pv == components(abs@),
            bv == components(root@),
            pv.take(k as int) == bv.take(k as int),
        decreases bc.len() - k,
    {
        assert(pv[k as int] == pc@[k as int]@);
        assert(bv[k as int] == bc@[k as int]@);
        if !crate::json::same_chars(&pc[k], &bc[k]) {
            assert(pv.take(bv.len() as int)[k as int] != bv[k as int]);
            assert(pv.take(bv.len() as int) != bv);
            assert(strip_components(abs@, root@) is None);
            return String::new();
        }
        assert(pv.take(k + 1) =~= pv.take(k as int).push(pv[k as int]));
        assert(bv.take(k + 1) =~= bv.take(k as int).push(bv[k as int]));
        k = k + 1;
    }
    assert(bv.take(bc.len() as int) =~= bv);
    let mut out: Vec<char> = if windows {
        chars_of("http://codexpet.localhost")
    } else {
        chars_of("codexpet://localhost")
    };
    out = cat(&out, &chars_of("/"));
    let ghost head = out@;
    let ghost rest = pv.skip(bc.len() as int);
    let ghost enc = rest.map_values(|c: Seq<char>| percent_encoded(c));
    let mut i: usize = bc.len();
    assert(enc.take(0) =~= Seq::<Seq<char>>::empty());
    while i < pc.len()
        invariant
            bc.len() <= i <= pc.len(),
            pv == crate::text::views(pc@),
            rest == pv.skip(bc.len() as int),
            enc == rest.map_values(|c: Seq<char>| percent_encoded(c)),
            out@ == head + join_slash(enc.take(i - bc.len())),
        decreases pc.len() - i,
    {
        proof {
            reveal_strlit("/");
        }
        let part = percent_encode_part(string_of(pc[i].as_slice()).as_str());
        assert(pv[i as int] == pc@[i as int]@);
        assert(enc[i - bc.len()] == percent_encoded(pc@[i as int]@));
        assert(enc.take(i - bc.len() + 1).drop_last() =~= enc.take(i - bc.len()));
        assert(enc.take(i - bc.len() + 1).last() == enc[i - bc.len()]);
        if i > bc.len() {
            out = cat(&out, &chars_of("/"));
        }
        out = cat(&out, &chars_of(part.as_str()));
        proof {
            if i == bc.len() {
                assert(enc.take(0) =~= Seq::<Seq<char>>::empty());
                assert(out@ =~= head + join_slash(enc.take(1)));
            } else {
                assert(out@ =~= head + join_slash(enc.take(i - bc.len() + 1)));
            }
        }
        i = i + 1;
    }
    assert(enc.take(pc.len() - bc.len()) =~= enc);
    string_of(out.as_slice())
}

/// The user's codex pets directory, `<home>/.codex/pets`, when there is a
/// home directory.
pub fn codex_pets_dir() -> (r: Option<String>)
    ensures
        r matches Some(d) ==> exists|home: Seq<char>|
            d@ == crate::gateway::join(crate::gateway::join(home, ".codex"@), "pets"@),
{
    match crate::gateway::home_dir() {
        Some(h) => Some(codex_pets_dir_in(h.as_str())),
        None => None,
    }
}

/// The codex pets directory under home directory `home`: `<home>/.codex/pets`.
pub fn codex_pets_dir_in(home: &str) -> (r: String)
    ensures
        r@ == crate::gateway::join(crate::gateway::join(home@, ".codex"@), "pets"@),
{
    let a = crate::gateway::join_exec(&chars_of(home), &chars_of(".codex"));
    let b = crate::gateway::join_exec(&a, &chars_of("pets"));
    string_of(b.as_slice())
}

/// Why a dropped folder cannot be imported, before its `pet.json` is read:
/// it is no directory, or it holds no `pet.json`.
pub open spec fn import_refusal(src_path: Seq<char>, is_dir: bool, has_pet_json: bool) -> Option<
    Seq<char>,
> {
    if !is_dir {
        Some("not a directory: "@ + src_path)
    } else if !has_pet_json {
        Some("missing pet.json in dropped folder"@)
    } else {
        None
    }
}

/// Checks a dropped folder at `src_path` before import (see
/// `import_refusal`): `is_dir` tells whether it is a directory,
/// `has_pet_json` whether it holds a `pet.json` file.
pub fn check_pet_folder(src_path: &str, is_dir: bool, has_pet_json: bool) -> (r: Result<(), String>)
    ensures
        match r {
            Ok(()) => import_refusal(src_path@, is_dir, has_pet_json) is None,
            Err(e) => import_refusal(src_path@, is_dir, has_pet_json) == Some(e@),
        },
{
    if !is_dir {
        let t = cat(&chars_of("not a directory: "), &chars_of(src_path));
        Err(string_of(t.as_slice()))
    } else if !has_pet_json {
        Err(string_of(chars_of("missing pet.json in dropped folder").as_slice()))
    } else {
        Ok(())
    }
}

/// Why a dropped folder whose `pet.json` names the sprite sheet
/// `sheet_path` cannot be imported: the folder holds no such file.
pub open spec fn sheet_refusal(sheet_path: Seq<char>, has_sheet: bool) -> Option<Seq<char>> {
    if has_sheet {
        None
    } else {
        Some("missing spritesheet in dropped folder: "@ + sheet_path)
    }
}

/// Checks that a dropped folder holds its sprite sheet (see
/// `sheet_refusal`); `has_sheet` tells whether the file `sheet_path`
/// exists in it.
pub fn check_pet_sheet(sheet_path: &str, has_sheet: bool) -> (r: Result<(), String>)
    ensures
        match r {
            Ok(()) => sheet_refusal(sheet_path@, has_sheet) is None,
            Err(e) => sheet_refusal(sheet_path@, has_sheet) == Some(e@),
        },
{
    if has_sheet {
        Ok(())
    } else {
        let t = cat(&chars_of("missing spritesheet in dropped folder: "), &chars_of(sheet_path));
        Err(string_of(t.as_slice()))
    }
}

/// A pet as listed, with the file its sprite sheet lives in: `folder`
/// is the name of its folder under `root` (the pets directory), `meta`
/// its `pet.json`.
pub fn pet_entry(root: &str, folder: &str, meta: &Json, windows: bool) -> (r: (CodexPetMeta, String))
    ensures
        ({
            let id = pet_id(meta@, folder@);
            let sheet = crate::gateway::join(
                crate::gateway::join(root@, folder@),
                str_or(meta@, "spritesheetPath"@, "spritesheet.webp"@),
            );
            &&& r.0.id@ == id
            &&& r.0.display_name@ == str_or(meta@, "displayName"@, id)
            &&& r.0.description@ == str_or(meta@, "description"@, Seq::empty())
            &&& r.1@ == sheet
            &&& r.0.spritesheet_url@ == pet_url(root@, sheet, windows)
        }),
{
    let f = pet_fields(meta, folder);
    let dir = crate::gateway::join_exec(&chars_of(root), &chars_of(folder));
    let sheet = crate::gateway::join_exec(&dir, &chars_of(f.sheet_path.as_str()));
    let sheet_s = string_of(sheet.as_slice());
    let url = codex_asset_url(root, sheet_s.as_str(), windows);
    (CodexPetMeta { id: f.id, display_name: f.display_name, description: f.description, spritesheet_url: url }, sheet_s)
}

// ---------------------------------------------------------------------
// Order
// ---------------------------------------------------------------------

/// What `str::to_lowercase` gives.
pub uninterp spec fn lowercased(s: Seq<char>) -> Seq<char>;

/// Calls `str::to_lowercase` (std).  Claimed: the result is
/// `lowercased(s)`, a function of `s` alone.
#[verifier::external_body]
fn to_lowercase(s: &str) -> (r: String)
    ensures
        r@ == lowercased(s@),
{
    s.to_lowercase()
}

pub open spec fn pet_names(v: Seq<CodexPetMeta>) -> Seq<Seq<char>> {
    v.map_values(|p: CodexPetMeta| lowercased(p.display_name@))
}

/// Pets ordered by display name, ignoring case.
pub open spec fn names_sorted(n: Seq<Seq<char>>) -> bool {
    forall|i: int, j: int| 0 <= i < j < n.len() ==> !text_less(n[j], n[i])
}

pub open spec fn pets_view(v: Seq<CodexPetMeta>) -> Seq<(Seq<char>, Seq<char>, Seq<char>, Seq<char>)> {
    v.map_values(|p: CodexPetMeta| (p.id@, p.display_name@, p.description@, p.spritesheet_url@))
}

proof fn lemma_text_less_total(a: Seq<char>, b: Seq<char>)
    ensures
        !text_less(a, b) && !text_less(b, a) ==> a == b,
        text_less(a, b) ==> !text_less(b, a),
    decreases a.len(),
{
    if a.len() == 0 && b.len() == 0 {
        assert(a =~= b);
    } else if a.len() == 0 || b.len() == 0 {
    } else if a[0] != b[0] {
        assert((a[0] as int) != (b[0] as int));
    } else {
        lemma_text_less_total(a.drop_first(), b.drop_first());
        if !text_less(a, b) && !text_less(b, a) {
            assert(a.drop_first() == b.drop_first());
            assert(a =~= seq![a[0]] + a.drop_first());
            assert(b =~= seq![b[0]] + b.drop_first());
        }
    }
}

proof fn lemma_text_less_trans(a: Seq<char>, b: Seq<char>, c: Seq<char>)
    ensures
        !text_less(b, a) && !text_less(c, b) ==> !text_less(c, a),
    decreases a.len(),
{
    if !text_less(b, a) && !text_less(c, b) {
        if a.len() == 0 {
        } else if b.len() == 0 {
        } else if c.len() == 0 {
        } else if a[0] != b[0] {
            assert((a[0] as int) < (b[0] as int));
            if b[0] != c[0] {
                assert((b[0] as int) < (c[0] as int));
            }
            assert((a[0] as int) < (c[0] as int));
        } else if b[0] != c[0] {
            assert((b[0] as int) < (c[0] as int));
        } else {
            lemma_text_less_trans(a.drop_first(), b.drop_first(), c.drop_first());
        }
    }
}

fn text_less_strings(a: &String, b: &String) -> (r: bool)
    ensures
        r == text_less(a@, b@),
{
    let x = chars_of(a.as_str());
    let y = chars_of(b.as_str());
    let mut i: usize = 0;
    assert(x@.skip(0) =~= x@);
    assert(y@.skip(0) =~= y@);
    while i < x.len() && i < y.len() && x[i] == y[i]
        invariant
            i <= x.len(),
            i <= y.len(),
            x@ == a@,
            y@ == b@,
            text_less(a@, b@) == text_less(x@.skip(i as int), y@.skip(i as int)),
        decreases x.len() - i,
    {
        assert(x@.skip(i as int).drop_first() =~= x@.skip(i + 1));
        assert(y@.skip(i as int).drop_first() =~= y@.skip(i + 1));
        i = i + 1;
    }
    if i == y.len() {
        false
    } else if i == x.len() {
        true
    } else {
        assert(x@.skip(i as int)[0] == x@[i as int]);
        assert(y@.skip(i as int)[0] == y@[i as int]);
        x[i] < y[i]
    }
}

/// The pets sorted by display name ignoring case (pets with the same name
/// keep their order).
pub fn sort_pets(v: Vec<CodexPetMeta>) -> (r: Vec<CodexPetMeta>)
    ensures
        names_sorted(pet_names(r@)),
        pets_view(r@).to_multiset() == pets_view(v@).to_multiset(),
{
    broadcast use vstd::seq_lib::group_to_multiset_ensures;

    let ghost src = pets_view(v@);
    let mut out: Vec<CodexPetMeta> = Vec::new();
    let mut keys: Vec<String> = Vec::new();
    let mut rest = v;
    assert(pets_view(out@) =~= Seq::<(Seq<char>, Seq<char>, Seq<char>, Seq<char>)>::empty());
    assert(pets_view(rest@) == src);
    while rest.len() > 0
        invariant
            keys@.len() == out@.len(),
            forall|k: int| 0 <= k < keys@.len() ==> #[trigger] keys@[k]@ == lowercased(
                out@[k].display_name@,
            ),
            names_sorted(pet_names(out@)),
            pets_view(out@).to_multiset().add(pets_view(rest@).to_multiset()) == src.to_multiset(),
        decreases rest.len(),
    {
        let ghost r0 = rest@;
        let x = rest.pop().unwrap();
        let ghost xv = (x.id@, x.display_name@, x.description@, x.spritesheet_url@);
        proof {
            assert(r0 == rest@.push(x));
            assert(pets_view(r0) =~= pets_view(rest@).push(xv));
            vstd::seq_lib::to_multiset_build(pets_view(rest@), xv);
        }
        let kx = to_lowercase(x.display_name.as_str());
        let mut pos: usize = 0;
        while pos < out.len() && !text_less_strings(&kx, &keys[pos])
            invariant
                pos <= out.len(),
                keys@.len() == out@.len(),
                forall|k: int| 0 <= k < keys@.len() ==> #[trigger] keys@[k]@ == lowercased(
                    out@[k].display_name@,
                ),
                forall|m: int| 0 <= m < pos ==> !text_less(kx@, #[trigger] pet_names(out@)[m]),
            decreases out.len() - pos,
        {
            assert(pet_names(out@)[pos as int] == keys@[pos as int]@);
            pos = pos + 1;
        }
        let ghost o0 = pet_names(out@);
        let ghost p0 = pets_view(out@);
        let ghost k0 = keys@;
        let ghost q0 = out@;
        let ghost kxv = kx@;
        out.insert(pos, x);
        keys.insert(pos, kx);
        proof {
            assert(pets_view(out@) =~= p0.insert(pos as int, xv));
            assert(pet_names(out@) =~= o0.insert(pos as int, kx@));
            o0.insert_ensures(pos as int, kx@);
            let n = pet_names(out@);
            if pos < o0.len() {
                assert(text_less(kx@, o0[pos as int]));
            }
            assert forall|i: int, j: int| 0 <= i < j < n.len() implies !text_less(n[j], n[i]) by {
                if j < pos {
                } else if j == pos {
                    assert(!text_less(kx@, o0[i]));
                    assert(n[i] == o0[i]);
                } else if i < pos {
                    assert(n[j] == o0[j - 1]);
                    assert(n[i] == o0[i]);
                    if pos < o0.len() {
                        lemma_text_less_total(kx@, o0[pos as int]);
                        lemma_text_less_trans(o0[i], o0[pos as int], o0[j - 1]);
                    }
                } else if i == pos {
                    assert(n[j] == o0[j - 1]);
                    lemma_text_less_total(kx@, o0[pos as int]);
                    if j - 1 > pos {
                        lemma_text_less_trans(kx@, o0[pos as int], o0[j - 1]);
                    } else {
                        lemma_text_less_total(o0[pos as int], kx@);
                    }
                } else {
                    assert(n[i] == o0[i - 1]);
                    assert(n[j] == o0[j - 1]);
                }
            }
            vstd::seq_lib::to_multiset_insert(p0, pos as int, xv);
            assert(pets_view(out@).to_multiset().add(pets_view(rest@).to_multiset())
                =~= p0.to_multiset().add(pets_view(r0).to_multiset()));
            assert forall|k: int| 0 <= k < keys@.len() implies #[trigger] keys@[k]@ == lowercased(
                out@[k].display_name@,
            ) by {
                if k < pos {
                    assert(keys@[k] == k0[k]);
                    assert(out@[k] == q0[k]);
                } else if k == pos {
                    assert(keys@[k]@ == kxv);
                } else {
                    assert(keys@[k] == k0[k - 1]);
                    assert(out@[k] == q0[k - 1]);
                }
            }
        }
    }
    assert(pets_view(rest@).to_multiset() =~= vstd::multiset::Multiset::empty());
    assert(pets_view(out@).to_multiset() =~= src.to_multiset());
    out
}

} // verus!
