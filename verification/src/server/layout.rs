//! The administration screen's layout: the Server only stores it, as JSON
//! with a few limits and a revision that counts saves.

use vstd::prelude::*;

use crate::text::{decimal, owned, push_decimal, push_str};

verus! {

pub const MAX_LAYOUT_BYTES: usize = 262144;

pub const MAX_PAGES: usize = 50;

/// What the checks read of a layout: whether it is an object, whether its
/// `version` is an unsigned number, how many `pages` it lists (`None`
/// without a list), and its size once serialized.
#[derive(Debug, Clone, Copy)]
pub struct LayoutShape {
    pub object: bool,
    pub numeric_version: bool,
    pub pages: Option<usize>,
    pub size: usize,
}

/// `serde_json::Value::is_object`. A function of the value alone.
pub uninterp spec fn json_is_object(v: serde_json::Value) -> bool;

/// `Value::get(key)` then `Value::as_u64`: the field `key` of an object as
/// an unsigned integer; `None` when `v` is not an object, lacks the field,
/// or the field is not such a number. A function of the value and key alone.
pub uninterp spec fn json_u64_field(v: serde_json::Value, key: Seq<char>) -> Option<u64>;

/// `Value::get(key)` then `Value::as_array`: the length of the list in the
/// field `key`; `None` without such a list. A function of the value and key
/// alone.
pub uninterp spec fn json_list_len(v: serde_json::Value, key: Seq<char>) -> Option<usize>;

/// `serde_json::to_vec`: the length of the value's JSON text, `None` when it
/// cannot be written. A function of the value alone.
pub uninterp spec fn json_encoded_len(v: serde_json::Value) -> Option<usize>;

#[verifier::external_body]
fn is_object(v: &serde_json::Value) -> (r: bool)
    ensures
        r == json_is_object(*v),
{
    v.is_object()
}

#[verifier::external_body]
fn u64_field(v: &serde_json::Value, key: &str) -> (r: Option<u64>)
    ensures
        r == json_u64_field(*v, key@),
{
    v.get(key).and_then(serde_json::Value::as_u64)
}

#[verifier::external_body]
fn list_len(v: &serde_json::Value, key: &str) -> (r: Option<usize>)
    ensures
        r == json_list_len(*v, key@),
{
    v.get(key).and_then(serde_json::Value::as_array).map(Vec::len)
}

#[verifier::external_body]
fn encoded_len(v: &serde_json::Value) -> (r: Option<usize>)
    ensures
        r == json_encoded_len(*v),
{
    serde_json::to_vec(v).ok().map(|bytes| bytes.len())
}

/// What the checks read of a layout value: whether it is an object, whether
/// its `version` is an unsigned number, the length of its `pages` list, and
/// its size once serialized (the largest size when it cannot be, so that it
/// is refused).
pub open spec fn shape_of(v: serde_json::Value) -> LayoutShape {
    LayoutShape {
        object: json_is_object(v),
        numeric_version: json_u64_field(v, "version"@) is Some,
        pages: json_list_len(v, "pages"@),
        size: match json_encoded_len(v) {
            Some(n) => n,
            None => usize::MAX,
        },
    }
}

pub fn layout_shape(layout: &serde_json::Value) -> (r: LayoutShape)
    ensures
        r == shape_of(*layout),
{
    LayoutShape {
        object: is_object(layout),
        numeric_version: u64_field(layout, "version").is_some(),
        pages: list_len(layout, "pages"),
        size: match encoded_len(layout) {
            Some(n) => n,
            None => usize::MAX,
        },
    }
}

/// The checks the Web relies on, in order; the page count when they pass.
pub open spec fn layout_check(shape: LayoutShape) -> Result<usize, Seq<char>> {
    if !shape.object {
        Err("layout must be a JSON object"@)
    } else if !shape.numeric_version {
        Err("layout needs a numeric version"@)
    } else {
        match shape.pages {
            None => Err("layout needs a pages list"@),
            Some(n) => if n > MAX_PAGES {
                Err("layout has more than 50 pages"@)
            } else if shape.size > MAX_LAYOUT_BYTES {
                Err("layout is larger than 262144 bytes"@)
            } else {
                Ok(n)
            },
        }
    }
}

pub fn validate(shape: LayoutShape) -> (r: Result<usize, String>)
    ensures
        match layout_check(shape) {
            Ok(n) => r == Ok::<usize, String>(n),
            Err(m) => r matches Err(x) && x@ == m,
        },
{
    if !shape.object {
        return Err(owned("layout must be a JSON object"));
    }
    if !shape.numeric_version {
        return Err(owned("layout needs a numeric version"));
    }
    match shape.pages {
        None => Err(owned("layout needs a pages list")),
        Some(n) => {
            if n > MAX_PAGES {
                Err(owned("layout has more than 50 pages"))
            } else if shape.size > MAX_LAYOUT_BYTES {
                Err(owned("layout is larger than 262144 bytes"))
            } else {
                Ok(n)
            }
        },
    }
}

/// Checks the shape the Web relies on and returns the page count.
pub fn check_layout(layout: &serde_json::Value) -> (r: Result<usize, String>)
    ensures
        layout_check(shape_of(*layout)) == match r {
            Ok(n) => Ok::<usize, Seq<char>>(n),
            Err(m) => Err::<usize, Seq<char>>(m@),
        },
{
    let r = validate(layout_shape(layout));
    assert(layout_check(shape_of(*layout)) == match r {
        Ok(n) => Ok::<usize, Seq<char>>(n),
        Err(m) => Err::<usize, Seq<char>>(m@),
    });
    r
}

/// What is stored: the revision (`0` while nothing was saved) and the
/// layout.
pub struct StoredLayout {
    pub revision: u64,
    pub layout: Option<serde_json::Value>,
}

impl StoredLayout {
    /// Nothing saved yet: what an absent or damaged file reads as.
    pub fn empty() -> (r: StoredLayout)
        ensures
            r.revision == 0,
            r.layout is None,
    {
        StoredLayout { revision: 0, layout: None }
    }

    /// What a save of `layout` stores after `self`: the next revision.
    pub fn saved(&self, layout: serde_json::Value) -> (r: StoredLayout)
        requires
            self.revision < u64::MAX,
        ensures
            r.revision == self.revision + 1,
            r.layout == Some(layout),
    {
        StoredLayout { revision: self.revision + 1, layout: Some(layout) }
    }
}

/// A save of `layout` after `current` (what the file holds): refused with
/// the failed check's message, leaving nothing to write; else the next
/// revision holding the layout, to be written.
pub fn put_layout(current: &StoredLayout, layout: serde_json::Value) -> (r: Result<StoredLayout, String>)
    requires
        current.revision < u64::MAX,
    ensures
        match layout_check(shape_of(layout)) {
            Ok(_) => r matches Ok(s) && s.revision == current.revision + 1 && s.layout == Some(layout),
            Err(m) => r matches Err(x) && x@ == m,
        },
{
    match check_layout(&layout) {
        Ok(_) => Ok(current.saved(layout)),
        Err(error) => Err(error),
    }
}

} // verus!
