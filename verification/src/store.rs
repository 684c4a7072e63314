//! The versioned envelope of the local stores (`profiles.json`,
//! `credentials.json`, `scripts.json`): `{ "version": 2, "kind": …,
//! "items": […] }`, with the bare array of the first format still read.
//!
//! A file that declares a format newer than this build is refused and left
//! untouched; an older one is migrated after a copy of it is kept.
use vstd::prelude::*;
use crate::text::{chars_of, dec, push_dec, push_str, str_eq, trim, trim_chars};

verus! {

/// Format version written by this build.
pub const CURRENT_VERSION: u32 = 2;

/// Implicit version of the legacy format: a bare JSON array.
pub const LEGACY_VERSION: u32 = 1;

/// Shape of a store file, told without reading its items.
#[derive(Debug, Clone, Copy, PartialEq, Eq, Structural)]
pub enum Shape {
    /// Bare JSON array (format 1).
    Legacy,
    /// Envelope `{version, kind, items}` with the version it declares.
    Versioned(u32),
}

/// Why a store cannot be read.
#[derive(Debug, Clone, PartialEq, Eq)]
pub enum StoreError {
    /// Readable, but not by this build or not of this kind: left untouched.
    Store(String),
    /// Not a store at all.
    Serialization(String),
}

/// A member of a JSON object as the outline gives it: its key, the compact
/// JSON text of each element when its value is an array, and its value when
/// that is an unsigned integer.
pub type JsonMember = (String, Option<Vec<String>>, Option<u64>);

/// The texts of a list of JSON values.
pub open spec fn texts_view(v: Vec<String>) -> Seq<Seq<char>> {
    v@.map_values(|s: String| s@)
}

pub open spec fn opt_texts(o: Option<Vec<String>>) -> Option<Seq<Seq<char>>> {
    match o {
        Some(v) => Some(texts_view(v)),
        None => None,
    }
}

pub open spec fn member_view(m: JsonMember) -> (Seq<char>, Option<Seq<Seq<char>>>, Option<u64>) {
    (m.0@, opt_texts(m.1), m.2)
}

/// The top of a JSON text, as `serde_json` reads it into a `Value`: when it
/// is an array, the compact text of each element; when it is an object, its
/// members in the map's order (the keys of a `serde_json::Map` are
/// distinct). `None` when the text is not JSON.
pub uninterp spec fn json_top_of(text: Seq<char>) -> Option<(Option<Seq<Seq<char>>>, Option<Seq<(Seq<char>, Option<Seq<Seq<char>>>, Option<u64>)>>)>;

/// `serde_json::from_str::<serde_json::Value>` and the outline of the value:
/// `as_array` with each element written back by `to_string`, and
/// `as_object` with each member's key, `as_array` (elements written back the
/// same way) and `as_u64`. The contract names the outline; an array is not an
/// object.
#[verifier::external_body]
fn json_top(text: &str) -> (r: Option<(Option<Vec<String>>, Option<Vec<JsonMember>>)>)
    ensures
        match r {
            Some((a, ms)) => json_top_of(text@) == Some((opt_texts(a), match ms {
                Some(v) => Some(v@.map_values(|m: JsonMember| member_view(m))),
                None => None,
            })) && (a is Some ==> ms is None),
            None => json_top_of(text@) is None,
        },
{
    let v: serde_json::Value = serde_json::from_str(text).ok()?;
    let texts = |a: &Vec<serde_json::Value>| a.iter().map(|e| e.to_string()).collect::<Vec<String>>();
    let members = v.as_object().map(|o| o.iter().map(|(k, x)| (k.clone(), x.as_array().map(texts), x.as_u64())).collect());
    Some((v.as_array().map(texts), members))
}

/// The first member named `key`: its elements when it is an array, and its
/// value when that is an unsigned integer.
pub open spec fn member(ms: Seq<(Seq<char>, Option<Seq<Seq<char>>>, Option<u64>)>, key: Seq<char>) -> Option<(Option<Seq<Seq<char>>>, Option<u64>)>
    decreases ms.len(),
{
    if ms.len() == 0 {
        None
    } else if ms[0].0 == key {
        Some((ms[0].1, ms[0].2))
    } else {
        member(ms.drop_first(), key)
    }
}

/// The shape a JSON outline stands for: an array is the legacy format; an
/// object whose `version` is an unsigned integer that fits a `u32` and whose
/// `items` is an array is an envelope; anything else is not a store.
pub open spec fn shape_spec(top: Option<(Option<Seq<Seq<char>>>, Option<Seq<(Seq<char>, Option<Seq<Seq<char>>>, Option<u64>)>>)>) -> Option<Shape> {
    match top {
        Some((Some(_), _)) => Some(Shape::Legacy),
        Some((None, Some(ms))) => match member(ms, "version"@) {
            Some((_, Some(v))) => if v <= u32::MAX && member(ms, "items"@) matches Some((Some(_), _)) {
                Some(Shape::Versioned(v as u32))
            } else {
                None
            },
            _ => None,
        },
        _ => None,
    }
}

/// The items of a store text as JSON texts: the elements of a bare array,
/// or those of the `items` member of an object when it is an array; `None`
/// for anything else.
pub open spec fn items_spec(top: Option<(Option<Seq<Seq<char>>>, Option<Seq<(Seq<char>, Option<Seq<Seq<char>>>, Option<u64>)>>)>) -> Option<Seq<Seq<char>>> {
    match top {
        Some((Some(es), _)) => Some(es),
        Some((None, Some(ms))) => match member(ms, "items"@) {
            Some((Some(es), _)) => Some(es),
            _ => None,
        },
        _ => None,
    }
}

fn find_member(ms: &Vec<JsonMember>, key: &str) -> (r: Option<(Option<Vec<String>>, Option<u64>)>)
    ensures
        match r {
            Some((es, n)) => member(ms@.map_values(|m: JsonMember| member_view(m)), key@)
                == Some((opt_texts(es), n)),
            None => member(ms@.map_values(|m: JsonMember| member_view(m)), key@) is None,
        },
{
    let ghost mv = ms@.map_values(|m: JsonMember| member_view(m));
    let mut i: usize = 0;
    assert(mv.skip(0) =~= mv);
    while i < ms.len()
        invariant
            i <= ms@.len(),
            mv == ms@.map_values(|m: JsonMember| member_view(m)),
            member(mv, key@) == member(mv.skip(i as int), key@),
        decreases ms.len() - i,
    {
        let ghost t = mv.skip(i as int);
        assert(t[0] == member_view(ms@[i as int]));
        assert(t.drop_first() =~= mv.skip(i + 1));
        if str_eq(ms[i].0.as_str(), key) {
            return Some((ms[i].1.clone(), ms[i].2));
        }
        i += 1;
    }
    None
}

/// The items of a store text as compact JSON texts, whether the file is a
/// bare array or an envelope whose `items` is an array; `None` for a text
/// that is not JSON or holds neither. Callers that only look at one field
/// read the items through this and never assume the bare array.
pub fn items_value(text: &str) -> (r: Option<Vec<String>>)
    ensures
        opt_texts(r) == items_spec(json_top_of(text@)),
{
    match json_top(text) {
        None => None,
        Some((Some(es), _)) => Some(es),
        Some((None, None)) => None,
        Some((None, Some(ms))) => match find_member(&ms, "items") {
            Some((Some(es), _)) => Some(es),
            _ => None,
        },
    }
}

/// Recognises the shape of a store text without reading its items. `None`
/// only for a text that is neither an array nor an envelope with `items`; an
/// envelope of a future version is `Versioned` on purpose.
pub fn shape_of(text: &str) -> (r: Option<Shape>)
    ensures
        r == shape_spec(json_top_of(text@)),
{
    match json_top(text) {
        None => None,
        Some((Some(_), _)) => Some(Shape::Legacy),
        Some((None, None)) => None,
        Some((None, Some(ms))) => match find_member(&ms, "version") {
            Some((_, Some(v))) => {
                let items = find_member(&ms, "items");
                if v <= 4294967295 && items.is_some() && items.unwrap().0.is_some() {
                    Some(Shape::Versioned(v as u32))
                } else {
                    None
                }
            },
            _ => None,
        },
    }
}

/// A store text worth keeping: blank (an empty store) or of a known shape.
pub fn store_text_ok(text: &str) -> (r: bool)
    ensures
        r == (trim(text@).len() == 0 || shape_spec(json_top_of(text@)) is Some),
{
    trim_chars(&chars_of(text)).len() == 0 || shape_of(text).is_some()
}

pub open spec fn msg_future(kind: Seq<char>, version: u32) -> Seq<char> {
    "«"@ + kind + "» está en formato v"@ + dec(version as nat)
        + " y esta versión de Rustty entiende hasta la v"@ + dec(CURRENT_VERSION as nat)
        + ". Lo ha escrito una versión más reciente: actualiza Rustty para no perder estos datos."@
}

pub open spec fn msg_unknown(kind: Seq<char>) -> Seq<char> {
    "«"@ + kind + "» no tiene un formato reconocible"@
}

pub open spec fn msg_cross(kind: Seq<char>, found: Seq<char>) -> Seq<char> {
    "El almacén «"@ + kind + "» contiene datos de «"@ + found + "»: no se carga para no sobrescribirlo."@
}

/// The format version a store is read in: 1 for the legacy array, the
/// declared one for an envelope this build understands; a newer envelope and
/// an unknown shape are errors.
pub fn readable_version(shape: Option<Shape>, kind: &str) -> (r: Result<u32, StoreError>)
    ensures
        match shape {
            Some(Shape::Legacy) => r == Ok::<u32, StoreError>(LEGACY_VERSION),
            Some(Shape::Versioned(v)) => if v <= CURRENT_VERSION {
                r == Ok::<u32, StoreError>(v)
            } else {
                r matches Err(StoreError::Store(m)) && m@ == msg_future(kind@, v)
            },
            None => r matches Err(StoreError::Serialization(m)) && m@ == msg_unknown(kind@),
        },
{
    match shape {
        Some(Shape::Legacy) => Ok(LEGACY_VERSION),
        Some(Shape::Versioned(v)) => {
            if v <= CURRENT_VERSION {
                Ok(v)
            } else {
                let mut m = String::new();
                push_str(&mut m, "«");
                push_str(&mut m, kind);
                push_str(&mut m, "» está en formato v");
                push_dec(&mut m, v as u64);
                push_str(&mut m, " y esta versión de Rustty entiende hasta la v");
                push_dec(&mut m, CURRENT_VERSION as u64);
                push_str(
                    &mut m,
                    ". Lo ha escrito una versión más reciente: actualiza Rustty para no perder estos datos.",
                );
                Err(StoreError::Store(m))
            }
        },
        None => {
            let mut m = String::new();
            push_str(&mut m, "«");
            push_str(&mut m, kind);
            push_str(&mut m, "» no tiene un formato reconocible");
            Err(StoreError::Serialization(m))
        },
    }
}

/// An envelope written for another store (a `credentials.json` copied over
/// `profiles.json`) is refused; an envelope without `kind` is accepted.
pub fn check_kind(found: &str, kind: &str) -> (r: Result<(), StoreError>)
    ensures
        if found@.len() > 0 && found@ != kind@ {
            r matches Err(StoreError::Store(m)) && m@ == msg_cross(kind@, found@)
        } else {
            r is Ok
        },
{
    if chars_of(found).len() > 0 && !str_eq(found, kind) {
        let mut m = String::new();
        push_str(&mut m, "El almacén «");
        push_str(&mut m, kind);
        push_str(&mut m, "» contiene datos de «");
        push_str(&mut m, found);
        push_str(&mut m, "»: no se carga para no sobrescribirlo.");
        return Err(StoreError::Store(m));
    }
    Ok(())
}

/// Whether a store read in format `version` is rewritten in the current one.
pub fn needs_migration(version: u32) -> (r: bool)
    ensures
        r == (version < CURRENT_VERSION),
{
    version < CURRENT_VERSION
}

/// File name of the copy kept before a migration: `<name>.v<from>-<ts>.bak`.
pub fn migration_backup_name(file_name: &str, from: u32, ts: u64) -> (r: String)
    ensures
        r@ == file_name@ + ".v"@ + dec(from as nat) + seq!['-'] + dec(ts as nat) + ".bak"@,
{
    let mut m = String::new();
    push_str(&mut m, file_name);
    push_str(&mut m, ".v");
    push_dec(&mut m, from as u64);
    crate::text::push_char(&mut m, '-');
    push_dec(&mut m, ts);
    push_str(&mut m, ".bak");
    m
}

} // verus!
