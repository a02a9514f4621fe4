//! Laws of the registrar, stated and proved over the same spec functions
//! its contracts use.

use vstd::prelude::*;

use crate::cache::HandleView;
use crate::imaging::{classification, raster_dims, IconClass};
use crate::lifetime::Lifetime;
use crate::manager::{entry_accepts, entry_path_of};
use crate::store::FileContent;

verus! {

/// Uniqueness of registration.  A successful registration of an
/// application id (`entry_accepts`, exactly the condition under which
/// `register_entry` returns `Ok`) leaves the submitted descriptor recorded
/// at the id's target path, and in the state so reached no registration of
/// the same id is accepted any more, whatever text it submits — and since
/// `register_entry` changes nothing on any failure, the first file's bytes
/// stay as they were.  The lifetime plays no part in acceptance, so this
/// holds across lifetimes.
pub proof fn lemma_entry_registration_unique(
    files: Map<Seq<char>, FileContent>,
    dir: Seq<char>,
    text: Seq<char>,
    appid: Seq<char>,
)
    requires
        entry_accepts(files, dir, text, appid),
    ensures
        ({
            let files1 = files.insert(entry_path_of(dir, appid), FileContent::Text(text));
            &&& files1[entry_path_of(dir, appid)] == FileContent::Text(text)
            &&& forall|text2: Seq<char>| !(#[trigger] entry_accepts(files1, dir, text2, appid))
        }),
{
}

/// Classification priority.  Bytes that decode as a raster image are
/// classified as raster, never as vector markup, whatever else — UTF-8
/// text included — they may parse as.
pub proof fn lemma_raster_priority(data: Seq<u8>)
    requires
        raster_dims(data) is Some,
    ensures
        classification(data) is Raster,
        !(classification(data) is Vector),
{
    assert(classification(data) matches IconClass::Raster(w, h));
}

/// Teardown completeness over the handle index.  Removing a lifetime
/// leaves no bucket for it, and every other lifetime's bucket untouched;
/// `remove_lifetime` establishes exactly this for both indexes, and
/// deletes every file the lifetime owned.
pub proof fn lemma_teardown_complete(m: Map<Lifetime, Seq<HandleView>>, lt: Lifetime)
    ensures
        !m.remove(lt).contains_key(lt),
        forall|lt2: Lifetime|
            lt2 != lt ==> (#[trigger] m.remove(lt).contains_key(lt2)) == m.contains_key(lt2),
        forall|lt2: Lifetime|
            lt2 != lt && m.contains_key(lt2) ==> (#[trigger] m.remove(lt)[lt2]) == m[lt2],
{
}

} // verus!
