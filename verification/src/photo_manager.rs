//! The local photo store: deriving candidate file paths for an entity and
//! picking the first that exists. Reading the files themselves is I/O and
//! stays with the caller; the store's rules live here.

use vstd::prelude::*;

use crate::homeassistant_types::{EntityId, EntityKind};

verus! {

use vstd::string::StringExecFns;

/// The entity kind's namespace prefix with the separator made
/// filesystem-safe: `.` becomes `_`, so an extension can be appended.
pub open spec fn spec_sanitized_prefix(kind: EntityKind) -> Seq<char> {
    match kind {
        EntityKind::Person => "person_"@,
        EntityKind::Zone => "zone_"@,
        EntityKind::InputBoolean => "input_boolean_"@,
    }
}

fn sanitized_prefix(kind: EntityKind) -> (r: &'static str)
    ensures
        r@ == spec_sanitized_prefix(kind),
{
    match kind {
        EntityKind::Person => {
            proof {
                reveal_strlit("person_");
            }
            "person_"
        },
        EntityKind::Zone => {
            proof {
                reveal_strlit("zone_");
            }
            "zone_"
        },
        EntityKind::InputBoolean => {
            proof {
                reveal_strlit("input_boolean_");
            }
            "input_boolean_"
        },
    }
}

/// A candidate photo path: the directory, the sanitized canonical id, and
/// an extension.
pub open spec fn spec_photo_path(
    dir: Seq<char>,
    kind: EntityKind,
    suffix: Seq<char>,
    ext: Seq<char>,
) -> Seq<char> {
    dir + "/"@ + spec_sanitized_prefix(kind) + suffix + "."@ + ext
}

/// The extension tried at each position, in preference order.
pub open spec fn spec_ext(i: int) -> Seq<char> {
    if i == 0 {
        "png"@
    } else if i == 1 {
        "jpg"@
    } else {
        "jpeg"@
    }
}

/// The position of the first set flag, if any.
pub open spec fn spec_first_true(mask: Seq<bool>) -> Option<int>
    decreases mask.len(),
{
    if mask.len() == 0 {
        None
    } else if mask.first() {
        Some(0)
    } else {
        match spec_first_true(mask.drop_first()) {
            Some(i) => Some(i + 1),
            None => None,
        }
    }
}

/// The local photo store, rooted at a fixed directory that the pipeline
/// only ever reads.
#[derive(Debug)]
pub struct PhotoManager {
    pub photos_directory: String,
}

impl PhotoManager {
    pub fn new(photos_directory: String) -> (r: Self)
        ensures
            r.photos_directory == photos_directory,
    {
        PhotoManager { photos_directory }
    }

    /// The candidate photo file paths for an entity: the canonical id with
    /// the namespace separator replaced by an underscore, against each
    /// accepted extension in preference order.
    pub fn potential_paths(&self, entity_id: &EntityId) -> (r: Vec<String>)
        ensures
            r@.len() == 3,
            forall|i: int|
                0 <= i < 3 ==> (#[trigger] r@[i])@ == spec_photo_path(
                    self.photos_directory@,
                    entity_id.kind,
                    entity_id.suffix@,
                    spec_ext(i),
                ),
    {
        proof {
            reveal_strlit("/");
            reveal_strlit(".");
            reveal_strlit("png");
            reveal_strlit("jpg");
            reveal_strlit("jpeg");
        }
        let base = String::from_str(self.photos_directory.as_str()).concat("/").concat(
            sanitized_prefix(entity_id.kind),
        ).concat(entity_id.suffix.as_str()).concat(".");
        let mut r: Vec<String> = Vec::new();
        r.push(String::from_str(base.as_str()).concat("png"));
        r.push(String::from_str(base.as_str()).concat("jpg"));
        r.push(base.concat("jpeg"));
        r
    }

    /// The first candidate path that exists, given which candidates do (in
    /// the same order `potential_paths` yields them). The existence check
    /// and the later open race inherently; callers tolerate a late failure.
    pub fn find_first_existing_path(&self, entity_id: &EntityId, exists_mask: &Vec<bool>) -> (r:
        Option<String>)
        requires
            exists_mask@.len() == 3,
        ensures
            match spec_first_true(exists_mask@) {
                Some(i) => r is Some && r.unwrap()@ == spec_photo_path(
                    self.photos_directory@,
                    entity_id.kind,
                    entity_id.suffix@,
                    spec_ext(i),
                ),
                None => r is None,
            },
    {
        let mut paths = self.potential_paths(entity_id);
        proof {
            let m = exists_mask@;
            assert(m.first() == m[0]);
            assert(m.drop_first().first() == m[1]);
            assert(m.drop_first().drop_first().first() == m[2]);
            assert(m.drop_first().drop_first().drop_first().len() == 0);
            assert(spec_first_true(m.drop_first().drop_first().drop_first()) is None);
            assert(spec_first_true(m.drop_first().drop_first()) == if m[2] {
                Some(0int)
            } else {
                None::<int>
            });
            assert(spec_first_true(m.drop_first()) == if m[1] {
                Some(0int)
            } else if m[2] {
                Some(1int)
            } else {
                None::<int>
            });
            assert(spec_first_true(m) == if m[0] {
                Some(0int)
            } else if m[1] {
                Some(1int)
            } else if m[2] {
                Some(2int)
            } else {
                None::<int>
            });
        }
        if exists_mask[0] {
            let p = paths.remove(0);
            return Some(p);
        }
        if exists_mask[1] {
            let p = paths.remove(1);
            return Some(p);
        }
        if exists_mask[2] {
            let p = paths.remove(2);
            return Some(p);
        }
        None
    }
}

} // verus!
