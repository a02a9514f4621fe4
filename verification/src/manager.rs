//! The artifact manager: validation, collision-checked writes, the handle
//! index, and lifetime-scoped teardown.

use vstd::prelude::*;

use crate::cache::{bucket_or_empty, pop_handle, push_handle, take_bucket, DesktopHandle,
    EntryCache, HandleView, IconHandle};
use crate::errors::{EntryManagerError, IconValidationError};
use crate::imaging::{classify_icon, classification, fitted_side, png_plain, png_scaled, raster_dims,
    render_png, resize_to_fit, IconClass, MAX_ICON_SIDE};
use crate::lifetime::Lifetime;
use crate::numfmt::{dec_str, u32_to_string};
use crate::store::{FileContent, FileData, FileStore};
use crate::textutil::compose_path;
use crate::validate::{valid_entry, validate_desktop_entry, validation_code};

verus! {

/// The path a launcher descriptor is written to.
pub open spec fn entry_path_of(dir: Seq<char>, appid: Seq<char>) -> Seq<char> {
    dir + "/"@ + appid + ".desktop"@
}

/// The path a vector icon is written to.
pub open spec fn svg_path_of(dir: Seq<char>, name: Seq<char>) -> Seq<char> {
    dir + "/hicolor/scalable/apps/"@ + name + ".svg"@
}

/// The path a raster icon of the given (stored) side is written to.
pub open spec fn png_path_of(dir: Seq<char>, name: Seq<char>, side: u32) -> Seq<char> {
    dir + "/hicolor/"@ + dec_str(side as nat) + "x"@ + dec_str(side as nat) + "/apps/"@ + name
        + ".png"@
}

/// A handle index holds a handle at `(lt, j)`.
pub open spec fn m_has(m: Map<Lifetime, Seq<HandleView>>, lt: Lifetime, j: int) -> bool {
    m.contains_key(lt) && 0 <= j < m[lt].len()
}

/// The handle an index holds at `(lt, j)`.
pub open spec fn m_at(m: Map<Lifetime, Seq<HandleView>>, lt: Lifetime, j: int) -> HandleView {
    m[lt][j]
}

/// Every handle of the index is backed by a recorded file.
pub open spec fn backed(
    m: Map<Lifetime, Seq<HandleView>>,
    files: Map<Seq<char>, FileContent>,
) -> bool {
    forall|lt: Lifetime, j: int|
        m_has(m, lt, j) ==> files.contains_key((#[trigger] m_at(m, lt, j)).path)
}

/// No two handles of the index share a backing path.
pub open spec fn self_distinct(m: Map<Lifetime, Seq<HandleView>>) -> bool {
    forall|l1: Lifetime, j1: int, l2: Lifetime, j2: int|
        #![trigger m_at(m, l1, j1), m_at(m, l2, j2)]
        m_has(m, l1, j1) && m_has(m, l2, j2) && !(l1 == l2 && j1 == j2) ==> m_at(m, l1, j1).path
            != m_at(m, l2, j2).path
}

/// No handle of the first index shares a backing path with one of the
/// second.
pub open spec fn cross_distinct(
    ma: Map<Lifetime, Seq<HandleView>>,
    mb: Map<Lifetime, Seq<HandleView>>,
) -> bool {
    forall|l1: Lifetime, j1: int, l2: Lifetime, j2: int|
        #![trigger m_at(ma, l1, j1), m_at(mb, l2, j2)]
        m_has(ma, l1, j1) && m_has(mb, l2, j2) ==> m_at(ma, l1, j1).path != m_at(mb, l2, j2).path
}

/// No duplicates.
pub open spec fn distinct_pids(s: Seq<u32>) -> bool {
    forall|i: int, j: int| 0 <= i < j < s.len() ==> s[i] != s[j]
}

/// The invariant tying an index pair to the file record.
pub open spec fn index_wf(
    me: Map<Lifetime, Seq<HandleView>>,
    mi: Map<Lifetime, Seq<HandleView>>,
    files: Map<Seq<char>, FileContent>,
) -> bool {
    backed(me, files) && backed(mi, files) && self_distinct(me) && self_distinct(mi)
        && cross_distinct(me, mi)
}

/// The condition under which a descriptor registration succeeds: the text
/// is a valid descriptor for the id, and no artifact is recorded at the
/// id's target path.
pub open spec fn entry_accepts(
    files: Map<Seq<char>, FileContent>,
    dir: Seq<char>,
    text: Seq<char>,
    appid: Seq<char>,
) -> bool {
    valid_entry(text, appid) && !files.contains_key(entry_path_of(dir, appid))
}

/// The single mutable core of the registrar: the handle index, the file
/// record, and the set of subscriber processes.
#[derive(Clone, Debug)]
pub struct EntryManager {
    pub cache: EntryCache,
    pub entry_dir: String,
    pub icon_dir: String,
    pub change_handlers: Vec<u32>,
    pub store: FileStore,
}

impl EntryManager {
    /// The manager's invariant.
    pub open spec fn wf(self) -> bool {
        self.store.wf() && self.cache.wf() && index_wf(
            self.cache.entries_map(),
            self.cache.icons_map(),
            self.store@,
        ) && distinct_pids(self.change_handlers@)
    }

    /// Whether the lifetime owns an artifact recorded at this path.
    pub open spec fn owned_by(self, lt: Lifetime, p: Seq<char>) -> bool {
        map_owns(self.cache.entries_map(), lt, p) || map_owns(self.cache.icons_map(), lt, p)
    }

    /// A fresh manager over a base directory: an empty index, an empty file
    /// record, no subscribers.  The index is never serialized; it starts
    /// empty, and artifacts that outlive a restart are adopted by
    /// registering them anew from the artifact directories.
    pub fn new(base_dir: String) -> (r: Self)
        ensures
            r.wf(),
            r.cache.entries_map() == Map::<Lifetime, Seq<HandleView>>::empty(),
            r.cache.icons_map() == Map::<Lifetime, Seq<HandleView>>::empty(),
            r.store@ == Map::<Seq<char>, FileContent>::empty(),
            r.entry_dir@ == base_dir@ + "/applications"@,
            r.icon_dir@ == base_dir@ + "/icons"@,
            r.change_handlers@ == Seq::<u32>::empty(),
    {
        let mut entry_dir = base_dir.clone();
        entry_dir.append("/applications");
        let mut icon_dir = base_dir.clone();
        icon_dir.append("/icons");
        EntryManager {
            cache: EntryCache::new(),
            entry_dir,
            icon_dir,
            change_handlers: Vec::new(),
            store: FileStore::new(),
        }
    }

    /// The recorded payload under a path, if any.
    pub fn file_content(&self, path: &String) -> (r: Option<&FileData>)
        requires
            self.wf(),
        ensures
            match r {
                Some(d) => self.store@.contains_key(path@) && d@ == self.store@[path@],
                None => !self.store@.contains_key(path@),
            },
    {
        self.store.read(path)
    }

    /// Registers a subscriber process for change notifications.
    pub fn add_change_handler(&mut self, pid: u32)
        requires
            old(self).wf(),
        ensures
            final(self).wf(),
            final(self).cache == old(self).cache,
            final(self).store == old(self).store,
            final(self).entry_dir == old(self).entry_dir,
            final(self).icon_dir == old(self).icon_dir,
            forall|q: u32|
                final(self).change_handlers@.contains(q) <==> (old(
                    self,
                ).change_handlers@.contains(q) || q == pid),
    {
        let n = self.change_handlers.len();
        let mut i: usize = 0;
        while i < n
            invariant
                0 <= i <= n,
                *self == *old(self),
                old(self).wf(),
                n == self.change_handlers@.len(),
                forall|j: int| 0 <= j < i ==> self.change_handlers@[j] != pid,
            decreases n - i,
        {
            if self.change_handlers[i] == pid {
                proof {
                    assert(self.change_handlers@[i as int] == pid);
                    assert(self.change_handlers@.contains(pid));
                }
                return ;
            }
            i += 1;
        }
        let ghost hs0: Seq<u32> = self.change_handlers@;
        self.change_handlers.push(pid);
        proof {
            let hs = self.change_handlers@;
            assert(hs == hs0.push(pid));
            assert forall|q: u32| hs.contains(q) implies (hs0.contains(q) || q == pid) by {
                let k = choose|k: int| 0 <= k < hs.len() && hs[k] == q;
                if k < hs0.len() {
                    assert(hs0[k] == q);
                }
            }
            assert forall|q: u32| hs0.contains(q) || q == pid implies hs.contains(q) by {
                if hs0.contains(q) {
                    let k = choose|k: int| 0 <= k < hs0.len() && hs0[k] == q;
                    assert(hs[k] == q);
                } else {
                    assert(hs[hs0.len() as int] == pid);
                }
            }
            assert forall|a: int, b: int| 0 <= a < b < hs.len() implies hs[a] != hs[b] by {
                if b == hs.len() - 1 {
                    assert(hs[a] == hs0[a]);
                } else {
                    assert(hs[a] == hs0[a] && hs[b] == hs0[b]);
                }
            }
        }
    }

    /// Registers a launcher descriptor under the given lifetime.  The text
    /// is validated against the application id; the descriptor is written
    /// to `applications/{appid}.desktop` unless an artifact already stands
    /// there; on success a handle joins the lifetime's bucket.  On any
    /// failure nothing changes.
    pub fn register_entry(&mut self, entry: &str, appid: &str, lifetime: Lifetime) -> (r: Result<
        (),
        EntryManagerError,
    >)
        requires
            old(self).wf(),
        ensures
            final(self).wf(),
            final(self).entry_dir == old(self).entry_dir,
            final(self).icon_dir == old(self).icon_dir,
            final(self).change_handlers == old(self).change_handlers,
            final(self).cache.icons_map() == old(self).cache.icons_map(),
            !valid_entry(entry@, appid@) ==> *final(self) == *old(self) && (r matches Err(
                EntryManagerError::EntryValidation(v),
            ) && v == validation_code(entry@, appid@)),
            valid_entry(entry@, appid@) && old(self).store@.contains_key(
                entry_path_of(old(self).entry_dir@, appid@),
            ) ==> *final(self) == *old(self) && (r matches Err(EntryManagerError::PathCollision(p))
                && p@ == entry_path_of(old(self).entry_dir@, appid@)),
            r is Ok <==> entry_accepts(old(self).store@, old(self).entry_dir@, entry@, appid@),
            r is Ok ==> ({
                let p = entry_path_of(old(self).entry_dir@, appid@);
                &&& valid_entry(entry@, appid@)
                &&& !old(self).store@.contains_key(p)
                &&& final(self).store@ == old(self).store@.insert(p, FileContent::Text(entry@))
                &&& final(self).cache.entries_map() == old(self).cache.entries_map().insert(
                    lifetime,
                    bucket_or_empty(old(self).cache.entries_map(), lifetime).push(
                        (HandleView { name: appid@, path: p }),
                    ),
                )
            }),
    {
        match validate_desktop_entry(entry, appid) {
            Err(e) => {
                return Err(EntryManagerError::EntryValidation(e));
            },
            Ok(_) => {},
        }
        let path = compose_path(&self.entry_dir, "/", appid, ".desktop");
        if self.store.contains_path(&path) {
            return Err(EntryManagerError::PathCollision(path));
        }
        let handle = DesktopHandle { appid: String::from_str(appid), path: path.clone() };
        let ghost hv: HandleView = handle@;
        let ghost pre: EntryManager = *self;
        self.store.create(path, FileData::Text(String::from_str(entry)));
        push_handle(&mut self.cache.entries, lifetime, handle);
        proof {
            lemma_insert_handle_wf(
                pre.cache.entries_map(),
                pre.cache.icons_map(),
                pre.store@,
                lifetime,
                hv,
                FileContent::Text(entry@),
            );
        }
        Ok(())
    }
    /// Registers an icon payload under the given lifetime.  The payload is
    /// classified raster-first; a raster icon must be square and is stored
    /// as PNG at its side, downscaled when the side exceeds the bound;
    /// vector markup is written verbatim; an occupied target path is never
    /// overwritten.  On success a handle joins the lifetime's bucket; on
    /// any failure nothing changes.
    pub fn register_icon(&mut self, icon_name: &str, icon_data: &[u8], lifetime: Lifetime) -> (r:
        Result<(), EntryManagerError>)
        requires
            old(self).wf(),
        ensures
            final(self).wf(),
            final(self).entry_dir == old(self).entry_dir,
            final(self).icon_dir == old(self).icon_dir,
            final(self).change_handlers == old(self).change_handlers,
            final(self).cache.entries_map() == old(self).cache.entries_map(),
            classification(icon_data@) is Unknown ==> *final(self) == *old(self) && (r matches Err(
                EntryManagerError::IconValidation(IconValidationError::NoTypeFound),
            )),
            classification(icon_data@) matches IconClass::Raster(w, h) ==> (w != h ==> *final(self)
                == *old(self) && (r matches Err(
                EntryManagerError::IconValidation(IconValidationError::NotSquare),
            ))),
            classification(icon_data@) matches IconClass::Raster(w, h) ==> (w == h && w == 0
                ==> *final(self) == *old(self) && (r matches Err(
                EntryManagerError::IconValidation(IconValidationError::ImageFormat),
            ))),
            classification(icon_data@) matches IconClass::Raster(w, h) ==> (w == h && w >= 1 && old(
                self,
            ).store@.contains_key(
                png_path_of(old(self).icon_dir@, icon_name@, fitted_side(w, MAX_ICON_SIDE)),
            ) ==> *final(self) == *old(self) && (r matches Err(
                EntryManagerError::PathCollision(p),
            ) && p@ == png_path_of(old(self).icon_dir@, icon_name@, fitted_side(w, MAX_ICON_SIDE)))),
            classification(icon_data@) matches IconClass::Raster(w, h) ==> (w == h && w >= 1 && !old(
                self,
            ).store@.contains_key(
                png_path_of(old(self).icon_dir@, icon_name@, fitted_side(w, MAX_ICON_SIDE)),
            ) ==> r is Ok),
            classification(icon_data@) matches IconClass::Raster(w, h) ==> (r is Ok ==> ({
                let s = fitted_side(w, MAX_ICON_SIDE);
                let p = png_path_of(old(self).icon_dir@, icon_name@, s);
                &&& w == h
                &&& w >= 1
                &&& !old(self).store@.contains_key(p)
                &&& final(self).store@ == old(self).store@.insert(
                    p,
                    FileContent::Binary(
                        if w > MAX_ICON_SIDE {
                            png_scaled(icon_data@, MAX_ICON_SIDE)
                        } else {
                            png_plain(icon_data@)
                        },
                    ),
                )
                &&& raster_dims(
                    if w > MAX_ICON_SIDE {
                        png_scaled(icon_data@, MAX_ICON_SIDE)
                    } else {
                        png_plain(icon_data@)
                    },
                ) == Some((s, s))
                &&& final(self).cache.icons_map() == old(self).cache.icons_map().insert(
                    lifetime,
                    bucket_or_empty(old(self).cache.icons_map(), lifetime).push(
                        (HandleView { name: icon_name@, path: p }),
                    ),
                )
            })),
            (classification(icon_data@) is Vector && old(self).store@.contains_key(
                svg_path_of(old(self).icon_dir@, icon_name@),
            )) ==> *final(self) == *old(self) && (r matches Err(EntryManagerError::PathCollision(p))
                && p@ == svg_path_of(old(self).icon_dir@, icon_name@)),
            (classification(icon_data@) is Vector && !old(self).store@.contains_key(
                svg_path_of(old(self).icon_dir@, icon_name@),
            )) ==> r is Ok && ({
                let p = svg_path_of(old(self).icon_dir@, icon_name@);
                &&& final(self).store@ == old(self).store@.insert(
                    p,
                    FileContent::Binary(icon_data@),
                )
                &&& final(self).cache.icons_map() == old(self).cache.icons_map().insert(
                    lifetime,
                    bucket_or_empty(old(self).cache.icons_map(), lifetime).push(
                        (HandleView { name: icon_name@, path: p }),
                    ),
                )
            }),
    {
        let class = classify_icon(icon_data);
        match class {
            IconClass::Unknown => Err(
                EntryManagerError::IconValidation(IconValidationError::NoTypeFound),
            ),
            IconClass::Raster(w, h) => {
                if !crate::imaging::check_square(w, h) {
                    return Err(EntryManagerError::IconValidation(IconValidationError::NotSquare));
                }
                if w == 0 {
                    // the raster format cannot hold a zero-dimension image
                    return Err(EntryManagerError::IconValidation(IconValidationError::ImageFormat));
                }
                let side = resize_to_fit(w, MAX_ICON_SIDE);
                let num = u32_to_string(side);
                let mut path = self.icon_dir.clone();
                path.append("/hicolor/");
                path.append(num.as_str());
                path.append("x");
                path.append(num.as_str());
                path.append("/apps/");
                path.append(icon_name);
                path.append(".png");
                proof {
                    assert(path@ =~= png_path_of(self.icon_dir@, icon_name@, side));
                }
                if self.store.contains_path(&path) {
                    return Err(EntryManagerError::PathCollision(path));
                }
                let bytes = render_png(icon_data, w, MAX_ICON_SIDE);
                let handle = IconHandle {
                    icon_name: String::from_str(icon_name),
                    icon_path: path.clone(),
                };
                let ghost hv: HandleView = handle@;
                let ghost pre: EntryManager = *self;
                let ghost content: FileContent = FileContent::Binary(bytes@);
                self.store.create(path, FileData::Binary(bytes));
                push_handle(&mut self.cache.icons, lifetime, handle);
                proof {
                    lemma_insert_handle_wf(
                        pre.cache.icons_map(),
                        pre.cache.entries_map(),
                        pre.store@,
                        lifetime,
                        hv,
                        content,
                    );
                }
                Ok(())
            },
            IconClass::Vector => {
                let path = compose_path(&self.icon_dir, "/hicolor/scalable/apps/", icon_name, ".svg");
                if self.store.contains_path(&path) {
                    return Err(EntryManagerError::PathCollision(path));
                }
                let data_vec = vstd::slice::slice_to_vec(icon_data);
                let handle = IconHandle {
                    icon_name: String::from_str(icon_name),
                    icon_path: path.clone(),
                };
                let ghost hv: HandleView = handle@;
                let ghost pre: EntryManager = *self;
                self.store.create(path, FileData::Binary(data_vec));
                push_handle(&mut self.cache.icons, lifetime, handle);
                proof {
                    lemma_insert_handle_wf(
                        pre.cache.icons_map(),
                        pre.cache.entries_map(),
                        pre.store@,
                        lifetime,
                        hv,
                        FileContent::Binary(icon_data@),
                    );
                }
                Ok(())
            },
        }
    }

    /// Tears a whole lifetime down.  Every handle the lifetime owns leaves
    /// the index and its backing file is deleted; a lifetime that owns
    /// nothing is a no-op.  The call always succeeds, and afterwards no
    /// handle for the lifetime remains in either index.
    pub fn remove_lifetime(&mut self, lifetime: Lifetime) -> (r: Result<(), EntryManagerError>)
        requires
            old(self).wf(),
        ensures
            r is Ok,
            final(self).wf(),
            final(self).entry_dir == old(self).entry_dir,
            final(self).icon_dir == old(self).icon_dir,
            final(self).change_handlers == old(self).change_handlers,
            final(self).cache.entries_map() == old(self).cache.entries_map().remove(lifetime),
            final(self).cache.icons_map() == old(self).cache.icons_map().remove(lifetime),
            forall|p: Seq<char>|
                old(self).owned_by(lifetime, p) ==> !final(self).store@.contains_key(p),
            forall|p: Seq<char>|
                !old(self).owned_by(lifetime, p) && old(self).store@.contains_key(p)
                    ==> final(self).store@.contains_key(p) && final(self).store@[p]
                    == old(self).store@[p],
            forall|p: Seq<char>|
                !old(self).store@.contains_key(p) ==> !final(self).store@.contains_key(p),
    {
        let ghost pre: EntryManager = *self;
        let eb = take_bucket(&mut self.cache.entries, lifetime);
        let ib = take_bucket(&mut self.cache.icons, lifetime);
        let ghost s0: Map<Seq<char>, FileContent> = self.store@;
        let ghost epaths: Seq<HandleView> = match &eb {
            Some(b) => b.handles@.map_values(|h: DesktopHandle| h@),
            None => Seq::empty(),
        };
        match &eb {
            Some(b) => {
                delete_entry_files(&mut self.store, &b.handles, Ghost(epaths));
            },
            None => {},
        }
        let ghost s1: Map<Seq<char>, FileContent> = self.store@;
        let ghost ipaths: Seq<HandleView> = match &ib {
            Some(b) => b.handles@.map_values(|h: IconHandle| h@),
            None => Seq::empty(),
        };
        match &ib {
            Some(b) => {
                delete_icon_files(&mut self.store, &b.handles, Ghost(ipaths));
            },
            None => {},
        }
        proof {
            let me0 = pre.cache.entries_map();
            let mi0 = pre.cache.icons_map();
            let files0 = pre.store@;
            let files2 = self.store@;
            assert(s0 == files0);
            // what the two sweeps did, in terms of what the lifetime owned
            assert forall|p: Seq<char>| pre.owned_by(lifetime, p) implies !files2.contains_key(
                p,
            ) by {
                if map_owns(me0, lifetime, p) {
                    assert(epaths == me0[lifetime]);
                    assert(seq_has_path(epaths, p));
                    assert(!s1.contains_key(p));
                } else {
                    assert(ipaths == mi0[lifetime]);
                    assert(seq_has_path(ipaths, p));
                }
            }
            assert forall|p: Seq<char>|
                !pre.owned_by(lifetime, p) && files0.contains_key(p) implies (
            files2.contains_key(p) && files2[p] == files0[p]) by {
                assert(!seq_has_path(epaths, p)) by {
                    if seq_has_path(epaths, p) {
                        assert(me0.contains_key(lifetime));
                        assert(map_owns(me0, lifetime, p));
                    }
                }
                assert(!seq_has_path(ipaths, p)) by {
                    if seq_has_path(ipaths, p) {
                        assert(mi0.contains_key(lifetime));
                        assert(map_owns(mi0, lifetime, p));
                    }
                }
                assert(s0.contains_key(p));
                assert(s1.contains_key(p) && s1[p] == s0[p]);
                assert(files2.contains_key(p) && files2[p] == s1[p]);
            }
            assert forall|p: Seq<char>| !files0.contains_key(p) implies !files2.contains_key(
                p,
            ) by {
                assert(!s1.contains_key(p));
            }
            lemma_remove_handles_wf(me0, mi0, files0, lifetime, files2);
        }
        Ok(())
    }

    /// Undoes the descriptor registration made last under the lifetime:
    /// the newest handle leaves the bucket and its backing file leaves the
    /// record.  The embedding program calls this when its own write of the
    /// backing file fails, so a failed operation leaves nothing behind.
    /// Returns the path undone, or `None` when the lifetime holds no
    /// descriptor handle.
    pub fn rollback_entry(&mut self, lifetime: Lifetime) -> (r: Option<String>)
        requires
            old(self).wf(),
        ensures
            final(self).wf(),
            final(self).entry_dir == old(self).entry_dir,
            final(self).icon_dir == old(self).icon_dir,
            final(self).change_handlers == old(self).change_handlers,
            final(self).cache.icons_map() == old(self).cache.icons_map(),
            old(self).cache.entries_map().contains_key(lifetime) && old(
                self,
            ).cache.entries_map()[lifetime].len() > 0 ==> ({
                let hs = old(self).cache.entries_map()[lifetime];
                &&& (r matches Some(p) && p@ == hs.last().path)
                &&& final(self).cache.entries_map() == old(self).cache.entries_map().insert(
                    lifetime,
                    hs.drop_last(),
                )
                &&& final(self).store@ == old(self).store@.remove(hs.last().path)
            }),
            !(old(self).cache.entries_map().contains_key(lifetime) && old(
                self,
            ).cache.entries_map()[lifetime].len() > 0) ==> r is None && *final(self) == *old(self),
    {
        let ghost pre: EntryManager = *self;
        match pop_handle(&mut self.cache.entries, lifetime) {
            None => None,
            Some(h) => {
                self.store.delete(&h.path);
                proof {
                    lemma_pop_handle_wf(
                        pre.cache.entries_map(),
                        pre.cache.icons_map(),
                        pre.store@,
                        lifetime,
                    );
                }
                Some(h.path)
            },
        }
    }

    /// Undoes the icon registration made last under the lifetime, as
    /// [`Self::rollback_entry`] does for descriptors.
    pub fn rollback_icon(&mut self, lifetime: Lifetime) -> (r: Option<String>)
        requires
            old(self).wf(),
        ensures
            final(self).wf(),
            final(self).entry_dir == old(self).entry_dir,
            final(self).icon_dir == old(self).icon_dir,
            final(self).change_handlers == old(self).change_handlers,
            final(self).cache.entries_map() == old(self).cache.entries_map(),
            old(self).cache.icons_map().contains_key(lifetime) && old(
                self,
            ).cache.icons_map()[lifetime].len() > 0 ==> ({
                let hs = old(self).cache.icons_map()[lifetime];
                &&& (r matches Some(p) && p@ == hs.last().path)
                &&& final(self).cache.icons_map() == old(self).cache.icons_map().insert(
                    lifetime,
                    hs.drop_last(),
                )
                &&& final(self).store@ == old(self).store@.remove(hs.last().path)
            }),
            !(old(self).cache.icons_map().contains_key(lifetime) && old(
                self,
            ).cache.icons_map()[lifetime].len() > 0) ==> r is None && *final(self) == *old(self),
    {
        let ghost pre: EntryManager = *self;
        match pop_handle(&mut self.cache.icons, lifetime) {
            None => None,
            Some(h) => {
                self.store.delete(&h.icon_path);
                proof {
                    lemma_pop_handle_wf(
                        pre.cache.icons_map(),
                        pre.cache.entries_map(),
                        pre.store@,
                        lifetime,
                    );
                }
                Some(h.icon_path)
            },
        }
    }

    /// The process identifiers the reconciler must probe: every process a
    /// `Process` lifetime in either index refers to, and every subscriber.
    pub fn watched_pids(&self) -> (r: Vec<u32>)
        requires
            self.wf(),
        ensures
            forall|p: u32|
                #[trigger] r@.contains(p) <==> (self.cache.entries_map().contains_key(
                    Lifetime::Process(p),
                ) || self.cache.icons_map().contains_key(Lifetime::Process(p))
                    || self.change_handlers@.contains(p)),
    {
        let mut r: Vec<u32> = Vec::new();
        let n = self.cache.entries.len();
        let mut i: usize = 0;
        while i < n
            invariant
                0 <= i <= n,
                n == self.cache.entries@.len(),
                forall|p: u32|
                    #[trigger] r@.contains(p) <==> exists|bi: int|
                        0 <= bi < i && (#[trigger] self.cache.entries@[bi]).lifetime
                            == Lifetime::Process(p),
            decreases n - i,
        {
            match self.cache.entries[i].lifetime {
                Lifetime::Process(pid) => {
                    push_pid(&mut r, pid);
                    proof {
                        assert(self.cache.entries@[i as int].lifetime == Lifetime::Process(pid));
                    }
                },
                _ => {},
            }
            i += 1;
        }
        proof {
            assert forall|p: u32|
                #[trigger] r@.contains(p) <==> self.cache.entries_map().contains_key(
                    Lifetime::Process(p),
                ) by {
                crate::cache::lemma_buckets_contains(self.cache.entries@, Lifetime::Process(p));
            }
        }
        let ghost r1: Seq<u32> = r@;
        let n = self.cache.icons.len();
        let mut i: usize = 0;
        while i < n
            invariant
                0 <= i <= n,
                n == self.cache.icons@.len(),
                forall|p: u32|
                    r1.contains(p) <==> self.cache.entries_map().contains_key(
                        Lifetime::Process(p),
                    ),
                forall|p: u32|
                    #[trigger] r@.contains(p) <==> (r1.contains(p) || exists|bi: int|
                        0 <= bi < i && (#[trigger] self.cache.icons@[bi]).lifetime
                            == Lifetime::Process(p)),
            decreases n - i,
        {
            match self.cache.icons[i].lifetime {
                Lifetime::Process(pid) => {
                    push_pid(&mut r, pid);
                    proof {
                        assert(self.cache.icons@[i as int].lifetime == Lifetime::Process(pid));
                    }
                },
                _ => {},
            }
            i += 1;
        }
        proof {
            assert forall|p: u32|
                #[trigger] r@.contains(p) <==> (self.cache.entries_map().contains_key(
                    Lifetime::Process(p),
                ) || self.cache.icons_map().contains_key(Lifetime::Process(p))) by {
                crate::cache::lemma_buckets_contains(self.cache.icons@, Lifetime::Process(p));
            }
        }
        let ghost r2: Seq<u32> = r@;
        let n = self.change_handlers.len();
        let mut i: usize = 0;
        while i < n
            invariant
                0 <= i <= n,
                n == self.change_handlers@.len(),
                forall|p: u32|
                    r2.contains(p) <==> (self.cache.entries_map().contains_key(
                        Lifetime::Process(p),
                    ) || self.cache.icons_map().contains_key(Lifetime::Process(p))),
                forall|p: u32|
                    #[trigger] r@.contains(p) <==> (r2.contains(p) || exists|bi: int|
                        0 <= bi < i && self.change_handlers@[bi] == p),
            decreases n - i,
        {
            let q = self.change_handlers[i];
            push_pid(&mut r, q);
            proof {
                assert(self.change_handlers@[i as int] == q);
            }
            i += 1;
        }
        proof {
            assert forall|p: u32| self.change_handlers@.contains(p) implies exists|bi: int|
                0 <= bi < self.change_handlers@.len() && self.change_handlers@[bi] == p by {}
        }
        r
    }

    /// One reconciliation sweep over a list of processes found dead: every
    /// lifetime of a dead process is torn down, and dead subscribers are
    /// dropped without touching any artifact of theirs.
    pub fn reconcile_dead(&mut self, dead: &Vec<u32>)
        requires
            old(self).wf(),
        ensures
            final(self).wf(),
            final(self).entry_dir == old(self).entry_dir,
            final(self).icon_dir == old(self).icon_dir,
            forall|p: u32|
                #[trigger] dead@.contains(p) ==> !final(self).cache.entries_map().contains_key(
                    Lifetime::Process(p),
                ) && !final(self).cache.icons_map().contains_key(Lifetime::Process(p)),
            forall|lt: Lifetime|
                !lt_is_dead(dead@, lt) ==> (#[trigger] final(self).cache.entries_map().contains_key(
                    lt,
                ) == old(self).cache.entries_map().contains_key(lt)) && (old(
                    self,
                ).cache.entries_map().contains_key(lt) ==> final(self).cache.entries_map()[lt]
                    == old(self).cache.entries_map()[lt]),
            forall|lt: Lifetime|
                !lt_is_dead(dead@, lt) ==> (#[trigger] final(self).cache.icons_map().contains_key(
                    lt,
                ) == old(self).cache.icons_map().contains_key(lt)) && (old(
                    self,
                ).cache.icons_map().contains_key(lt) ==> final(self).cache.icons_map()[lt]
                    == old(self).cache.icons_map()[lt]),
            forall|p: u32, q: Seq<char>|
                #![trigger dead@.contains(p), final(self).store@.contains_key(q)]
                dead@.contains(p) && old(self).owned_by(Lifetime::Process(p), q)
                    ==> !final(self).store@.contains_key(q),
            forall|q: Seq<char>|
                !dead_owned(*old(self), dead@, q) && #[trigger] old(self).store@.contains_key(q)
                    ==> final(self).store@.contains_key(q) && final(self).store@[q]
                    == old(self).store@[q],
            forall|q: Seq<char>|
                !(#[trigger] old(self).store@.contains_key(q))
                    ==> !final(self).store@.contains_key(q),
            forall|q: u32|
                final(self).change_handlers@.contains(q) <==> (old(
                    self,
                ).change_handlers@.contains(q) && !dead@.contains(q)),
    {
        let n = dead.len();
        let mut i: usize = 0;
        while i < n
            invariant
                0 <= i <= n,
                n == dead@.len(),
                old(self).wf(),
                self.wf(),
                self.entry_dir == old(self).entry_dir,
                self.icon_dir == old(self).icon_dir,
                self.change_handlers == old(self).change_handlers,
                forall|p: u32|
                    #[trigger] dead@.take(i as int).contains(p)
                        ==> !self.cache.entries_map().contains_key(Lifetime::Process(p))
                        && !self.cache.icons_map().contains_key(Lifetime::Process(p)),
                forall|lt: Lifetime|
                    !lt_is_dead(dead@.take(i as int), lt) ==> (
                    #[trigger] self.cache.entries_map().contains_key(lt) == old(
                        self,
                    ).cache.entries_map().contains_key(lt)) && (old(
                        self,
                    ).cache.entries_map().contains_key(lt) ==> self.cache.entries_map()[lt] == old(
                        self,
                    ).cache.entries_map()[lt]),
                forall|lt: Lifetime|
                    !lt_is_dead(dead@.take(i as int), lt) ==> (
                    #[trigger] self.cache.icons_map().contains_key(lt) == old(
                        self,
                    ).cache.icons_map().contains_key(lt)) && (old(
                        self,
                    ).cache.icons_map().contains_key(lt) ==> self.cache.icons_map()[lt] == old(
                        self,
                    ).cache.icons_map()[lt]),
                forall|p: u32, q: Seq<char>|
                    #![trigger dead@.take(i as int).contains(p), old(self).owned_by(Lifetime::Process(p), q)]
                    dead@.take(i as int).contains(p) && old(self).owned_by(
                        Lifetime::Process(p),
                        q,
                    ) ==> !self.store@.contains_key(q),
                forall|q: Seq<char>|
                    !dead_owned(*old(self), dead@.take(i as int), q) && #[trigger] old(
                        self,
                    ).store@.contains_key(q) ==> self.store@.contains_key(q) && self.store@[q]
                        == old(self).store@[q],
                forall|q: Seq<char>|
                    !(#[trigger] old(self).store@.contains_key(q)) ==> !self.store@.contains_key(
                        q,
                    ),
            decreases n - i,
        {
            let pid = dead[i];
            let ghost mid: EntryManager = *self;
            let ghost d0: Seq<u32> = dead@.take(i as int);
            let ghost d1: Seq<u32> = dead@.take(i + 1);
            let _ = self.remove_lifetime(Lifetime::Process(pid));
            proof {
                assert(d1 == d0.push(pid));
                assert forall|p: u32| d1.contains(p) implies (d0.contains(p) || p == pid) by {
                    let k = choose|k: int| 0 <= k < d1.len() && d1[k] == p;
                    if k < d0.len() {
                        assert(d0[k] == p);
                    }
                }
                assert forall|p: u32| d0.contains(p) || p == pid implies d1.contains(p) by {
                    if d0.contains(p) {
                        let k = choose|k: int| 0 <= k < d0.len() && d0[k] == p;
                        assert(d1[k] == p);
                    } else {
                        assert(d1[d0.len() as int] == pid);
                    }
                }
                // the lifetime just removed owned, before this step, exactly
                // what it owned at the start of the sweep
                let ltp = Lifetime::Process(pid);
                if !d0.contains(pid) {
                    assert(!lt_is_dead(d0, ltp));
                    assert(mid.cache.entries_map().contains_key(ltp) == old(
                        self,
                    ).cache.entries_map().contains_key(ltp));
                    assert(mid.cache.icons_map().contains_key(ltp) == old(
                        self,
                    ).cache.icons_map().contains_key(ltp));
                    assert forall|q: Seq<char>| mid.owned_by(ltp, q) == old(self).owned_by(
                        ltp,
                        q,
                    ) by {
                        if mid.cache.entries_map().contains_key(ltp) {
                            assert(mid.cache.entries_map()[ltp] == old(
                                self,
                            ).cache.entries_map()[ltp]);
                        }
                        if mid.cache.icons_map().contains_key(ltp) {
                            assert(mid.cache.icons_map()[ltp] == old(self).cache.icons_map()[ltp]);
                        }
                    }
                }
                // dead files stay gone, newly removed files are gone
                assert forall|p: u32, q: Seq<char>|
                    #![trigger d1.contains(p), self.store@.contains_key(q)]
                    d1.contains(p) && old(self).owned_by(Lifetime::Process(p), q) implies !self.store@.contains_key(
                    q,
                ) by {
                    if d0.contains(p) {
                        assert(!mid.store@.contains_key(q));
                        assert(!self.store@.contains_key(q));
                    } else {
                        assert(p == pid);
                        assert(!d0.contains(pid));
                        assert(mid.owned_by(ltp, q));
                        assert(!self.store@.contains_key(q));
                    }
                }
                assert forall|q: Seq<char>|
                    !dead_owned(*old(self), d1, q) && old(self).store@.contains_key(q) implies (
                self.store@.contains_key(q) && self.store@[q] == old(self).store@[q]) by {
                    assert(!dead_owned(*old(self), d0, q)) by {
                        if dead_owned(*old(self), d0, q) {
                            let p = choose|p: u32|
                                #[trigger] d0.contains(p) && old(self).owned_by(
                                    Lifetime::Process(p),
                                    q,
                                );
                            assert(d1.contains(p));
                        }
                    }
                    assert(!dead_owned(*old(self), dead@.take(i as int), q));
                    assert(old(self).store@.contains_key(q));
                    assert(mid.store@.contains_key(q) && mid.store@[q] == old(self).store@[q]);
                    assert(!old(self).owned_by(ltp, q)) by {
                        if old(self).owned_by(ltp, q) {
                            assert(d1.contains(pid));
                        }
                    }
                    assert(!mid.owned_by(ltp, q));
                }
                // buckets of processes on the dead prefix stay gone
                assert forall|p: u32| #[trigger] d1.contains(p) implies (
                !self.cache.entries_map().contains_key(Lifetime::Process(p))
                    && !self.cache.icons_map().contains_key(Lifetime::Process(p))) by {
                    if p == pid {
                    } else {
                        assert(d0.contains(p));
                    }
                }
            }
            i += 1;
            proof {
                assert(dead@.take(i as int) == d1);
            }
        }
        proof {
            assert(dead@.take(n as int) == dead@);
        }
        let ghost h0: Seq<u32> = self.change_handlers@;
        let ghost sweep: EntryManager = *self;
        let mut kept: Vec<u32> = Vec::new();
        let n = self.change_handlers.len();
        let mut i: usize = 0;
        while i < n
            invariant
                0 <= i <= n,
                *self == sweep,
                n == h0.len(),
                h0 == self.change_handlers@,
                distinct_pids(h0),
                distinct_pids(kept@),
                forall|q: u32|
                    #[trigger] kept@.contains(q) <==> ((exists|j: int|
                        0 <= j < i && h0[j] == q) && !dead@.contains(q)),
            decreases n - i,
        {
            let ghost kept0: Seq<u32> = kept@;
            let q = self.change_handlers[i];
            let dead_q = contains_pid(dead, q);
            if !dead_q {
                proof {
                    assert(h0[i as int] == q);
                    assert(!kept0.contains(q)) by {
                        if kept0.contains(q) {
                            let j = choose|j: int| 0 <= j < i && h0[j] == q;
                            assert(h0[j] == h0[i as int]);
                        }
                    }
                }
                push_pid(&mut kept, q);
                proof {
                    assert forall|a: int, b: int| 0 <= a < b < kept@.len() implies kept@[a]
                        != kept@[b] by {
                        if b == kept@.len() - 1 {
                            assert(kept@[a] == kept0[a]);
                            assert(kept0.contains(kept0[a]));
                        } else {
                            assert(kept@[a] == kept0[a] && kept@[b] == kept0[b]);
                        }
                    }
                }
            }
            proof {
                assert(h0[i as int] == q);
                assert forall|q2: u32|
                    #[trigger] kept@.contains(q2) implies ((exists|j: int|
                        0 <= j < i + 1 && h0[j] == q2) && !dead@.contains(q2)) by {
                    if kept0.contains(q2) {
                        let j = choose|j: int| 0 <= j < i && h0[j] == q2;
                        assert(0 <= j < i + 1 && h0[j] == q2);
                    } else {
                        assert(q2 == q);
                        assert(0 <= i < i + 1 && h0[i as int] == q2);
                    }
                }
                assert forall|q2: u32|
                    (exists|j: int| 0 <= j < i + 1 && h0[j] == q2) && !dead@.contains(q2) implies #[trigger] kept@.contains(
                        q2,
                    ) by {
                    let j = choose|j: int| 0 <= j < i + 1 && h0[j] == q2;
                    if j < i {
                        assert(exists|j2: int| 0 <= j2 < i && h0[j2] == q2);
                        assert(kept0.contains(q2));
                    } else {
                        assert(h0[i as int] == q2);
                    }
                }
            }
            i += 1;
        }
        self.change_handlers = kept;
        proof {
            assert forall|q: u32| #[trigger] self.change_handlers@.contains(q) <==> (
            h0.contains(q) && !dead@.contains(q)) by {
                if h0.contains(q) {
                    let j = choose|j: int| 0 <= j < h0.len() && h0[j] == q;
                    assert(0 <= j < n && h0[j] == q);
                }
                if self.change_handlers@.contains(q) {
                    let j = choose|j: int| 0 <= j < n && h0[j] == q;
                    assert(h0.contains(q));
                }
            }
        }
    }
}

/// Whether the lifetime belongs to a process on the dead list.
pub open spec fn lt_is_dead(dead: Seq<u32>, lt: Lifetime) -> bool {
    match lt {
        Lifetime::Process(p) => dead.contains(p),
        Lifetime::Session => false,
        Lifetime::Persistent => false,
    }
}

/// Whether some process on the dead list owns an artifact at this path.
pub open spec fn dead_owned(m: EntryManager, dead: Seq<u32>, q: Seq<char>) -> bool {
    exists|p: u32| #[trigger] dead.contains(p) && m.owned_by(Lifetime::Process(p), q)
}

/// Whether the list holds the identifier.
fn contains_pid(pids: &Vec<u32>, x: u32) -> (r: bool)
    ensures
        r == pids@.contains(x),
{
    let n = pids.len();
    let mut i: usize = 0;
    while i < n
        invariant
            0 <= i <= n,
            n == pids@.len(),
            forall|j: int| 0 <= j < i ==> pids@[j] != x,
        decreases n - i,
    {
        if pids[i] == x {
            proof {
                assert(pids@[i as int] == x);
            }
            return true;
        }
        i += 1;
    }
    false
}

/// Appends an identifier; afterwards the list holds exactly what it held
/// and the new identifier.
fn push_pid(pids: &mut Vec<u32>, x: u32)
    ensures
        final(pids)@ == old(pids)@.push(x),
        forall|p: u32|
            final(pids)@.contains(p) <==> (old(pids)@.contains(p) || p == x),
{
    let ghost s0: Seq<u32> = pids@;
    pids.push(x);
    proof {
        let s = pids@;
        assert forall|p: u32| s.contains(p) implies (s0.contains(p) || p == x) by {
            let k = choose|k: int| 0 <= k < s.len() && s[k] == p;
            if k < s0.len() {
                assert(s0[k] == p);
            }
        }
        assert forall|p: u32| s0.contains(p) || p == x implies s.contains(p) by {
            if s0.contains(p) {
                let k = choose|k: int| 0 <= k < s0.len() && s0[k] == p;
                assert(s[k] == p);
            } else {
                assert(s[s0.len() as int] == x);
            }
        }
    }
}

/// Removing a lifetime's buckets, and from the file record anything it
/// owned and nothing another lifetime owns, keeps an index pair well
/// formed.
pub proof fn lemma_remove_handles_wf(
    me0: Map<Lifetime, Seq<HandleView>>,
    mi0: Map<Lifetime, Seq<HandleView>>,
    files0: Map<Seq<char>, FileContent>,
    lt: Lifetime,
    files1: Map<Seq<char>, FileContent>,
)
    requires
        index_wf(me0, mi0, files0),
        forall|p: Seq<char>|
            files0.contains_key(p) && !map_owns(me0, lt, p) && !map_owns(mi0, lt, p)
                ==> files1.contains_key(p),
    ensures
        index_wf(me0.remove(lt), mi0.remove(lt), files1),
{
    let me1 = me0.remove(lt);
    let mi1 = mi0.remove(lt);
    assert forall|l: Lifetime, j: int| m_has(me1, l, j) implies files1.contains_key(
        (#[trigger] m_at(me1, l, j)).path,
    ) by {
        assert(l != lt);
        assert(me1[l] == me0[l]);
        assert(m_has(me0, l, j));
        let q = m_at(me0, l, j).path;
        assert(files0.contains_key(q));
        assert(!map_owns(me0, lt, q)) by {
            if map_owns(me0, lt, q) {
                let j2 = choose|j2: int| 0 <= j2 < me0[lt].len() && (#[trigger] me0[lt][j2]).path
                    == q;
                assert(m_has(me0, lt, j2));
                assert(m_at(me0, lt, j2).path == m_at(me0, l, j).path);
            }
        }
        assert(!map_owns(mi0, lt, q)) by {
            if map_owns(mi0, lt, q) {
                let j2 = choose|j2: int| 0 <= j2 < mi0[lt].len() && (#[trigger] mi0[lt][j2]).path
                    == q;
                assert(m_has(mi0, lt, j2));
                assert(m_at(me0, l, j).path != m_at(mi0, lt, j2).path);
            }
        }
    }
    assert forall|l: Lifetime, j: int| m_has(mi1, l, j) implies files1.contains_key(
        (#[trigger] m_at(mi1, l, j)).path,
    ) by {
        assert(l != lt);
        assert(mi1[l] == mi0[l]);
        assert(m_has(mi0, l, j));
        let q = m_at(mi0, l, j).path;
        assert(files0.contains_key(q));
        assert(!map_owns(mi0, lt, q)) by {
            if map_owns(mi0, lt, q) {
                let j2 = choose|j2: int| 0 <= j2 < mi0[lt].len() && (#[trigger] mi0[lt][j2]).path
                    == q;
                assert(m_has(mi0, lt, j2));
                assert(m_at(mi0, lt, j2).path == m_at(mi0, l, j).path);
            }
        }
        assert(!map_owns(me0, lt, q)) by {
            if map_owns(me0, lt, q) {
                let j2 = choose|j2: int| 0 <= j2 < me0[lt].len() && (#[trigger] me0[lt][j2]).path
                    == q;
                assert(m_has(me0, lt, j2));
                assert(m_at(me0, lt, j2).path != m_at(mi0, l, j).path);
            }
        }
    }
    assert forall|l1: Lifetime, j1: int, l2: Lifetime, j2: int|
        #![trigger m_at(me1, l1, j1), m_at(me1, l2, j2)]
        m_has(me1, l1, j1) && m_has(me1, l2, j2) && !(l1 == l2 && j1 == j2) implies m_at(
        me1,
        l1,
        j1,
    ).path != m_at(me1, l2, j2).path by {
        assert(me1[l1] == me0[l1] && me1[l2] == me0[l2]);
        assert(m_at(me0, l1, j1).path != m_at(me0, l2, j2).path);
    }
    assert forall|l1: Lifetime, j1: int, l2: Lifetime, j2: int|
        #![trigger m_at(mi1, l1, j1), m_at(mi1, l2, j2)]
        m_has(mi1, l1, j1) && m_has(mi1, l2, j2) && !(l1 == l2 && j1 == j2) implies m_at(
        mi1,
        l1,
        j1,
    ).path != m_at(mi1, l2, j2).path by {
        assert(mi1[l1] == mi0[l1] && mi1[l2] == mi0[l2]);
        assert(m_at(mi0, l1, j1).path != m_at(mi0, l2, j2).path);
    }
    assert forall|l1: Lifetime, j1: int, l2: Lifetime, j2: int|
        #![trigger m_at(me1, l1, j1), m_at(mi1, l2, j2)]
        m_has(me1, l1, j1) && m_has(mi1, l2, j2) implies m_at(me1, l1, j1).path != m_at(
        mi1,
        l2,
        j2,
    ).path by {
        assert(me1[l1] == me0[l1] && mi1[l2] == mi0[l2]);
        assert(m_at(me0, l1, j1).path != m_at(mi0, l2, j2).path);
    }
}

/// The index holds, under the lifetime, a handle backed by this path.
pub open spec fn map_owns(m: Map<Lifetime, Seq<HandleView>>, lt: Lifetime, p: Seq<char>) -> bool {
    m.contains_key(lt) && seq_has_path(m[lt], p)
}

/// Some handle of the sequence is backed by this path.
pub open spec fn seq_has_path(hs: Seq<HandleView>, p: Seq<char>) -> bool {
    exists|j: int| 0 <= j < hs.len() && (#[trigger] hs[j]).path == p
}

/// Some handle among the first `k` is backed by this path.
pub open spec fn prefix_has_path(hs: Seq<HandleView>, k: int, p: Seq<char>) -> bool {
    exists|j: int| 0 <= j < k && j < hs.len() && (#[trigger] hs[j]).path == p
}

/// Deletes the backing file of every handle in the bucket.
fn delete_entry_files(store: &mut FileStore, handles: &Vec<DesktopHandle>, Ghost(hs): Ghost<Seq<HandleView>>)
    requires
        old(store).wf(),
        hs == handles@.map_values(|h: DesktopHandle| h@),
    ensures
        final(store).wf(),
        forall|p: Seq<char>|
            #[trigger] seq_has_path(hs, p) ==> !final(store)@.contains_key(p),
        forall|p: Seq<char>|
            !(#[trigger] seq_has_path(hs, p)) && old(store)@.contains_key(p)
                ==> final(store)@.contains_key(p) && final(store)@[p] == old(store)@[p],
        forall|p: Seq<char>|
            #[trigger] final(store)@.contains_key(p) ==> old(store)@.contains_key(p),
{
    let ghost s0: Map<Seq<char>, FileContent> = store@;
    let n = handles.len();
    let mut k: usize = 0;
    while k < n
        invariant
            0 <= k <= n,
            n == handles@.len(),
            hs == handles@.map_values(|h: DesktopHandle| h@),
            s0 == old(store)@,
            store.wf(),
            forall|p: Seq<char>| #[trigger] prefix_has_path(hs, k as int, p) ==> !store@.contains_key(p),
            forall|p: Seq<char>|
                !(#[trigger] prefix_has_path(hs, k as int, p)) && s0.contains_key(p)
                    ==> store@.contains_key(p) && store@[p] == s0[p],
            forall|p: Seq<char>| #[trigger] s0.contains_key(p) || !s0.contains_key(p)
                ==> (store@.contains_key(p) ==> s0.contains_key(p)),
        decreases n - k,
    {
        let ghost smid: Map<Seq<char>, FileContent> = store@;
        store.delete(&handles[k].path);
        proof {
            assert(hs[k as int] == handles@[k as int]@);
            let pk = hs[k as int].path;
            assert(store@ == smid.remove(pk));
            assert forall|p: Seq<char>| #[trigger] prefix_has_path(hs, k + 1, p)
                implies !store@.contains_key(p) by {
                if p != pk {
                    let j = choose|j: int| 0 <= j < k + 1 && j < hs.len() && (#[trigger] hs[j]).path
                        == p;
                    assert(j < k);
                    assert(prefix_has_path(hs, k as int, p));
                }
            }
            assert forall|p: Seq<char>|
                !(#[trigger] prefix_has_path(hs, k + 1, p)) && s0.contains_key(p)
                    implies store@.contains_key(p) && store@[p] == s0[p] by {
                assert(!prefix_has_path(hs, k as int, p)) by {
                    if prefix_has_path(hs, k as int, p) {
                        let j = choose|j: int|
                            0 <= j < k && j < hs.len() && (#[trigger] hs[j]).path == p;
                        assert(0 <= j < k + 1 && j < hs.len() && hs[j].path == p);
                    }
                }
                assert(p != pk) by {
                    if p == pk {
                        assert(0 <= k < k + 1 && (k as int) < hs.len() && hs[k as int].path == p);
                    }
                }
                assert(smid.contains_key(p) && smid[p] == s0[p]);
                assert(store@ == smid.remove(pk));
            }
        }
        k += 1;
    }
    proof {
        assert forall|p: Seq<char>| seq_has_path(hs, p) implies !store@.contains_key(p) by {
            let j = choose|j: int| 0 <= j < hs.len() && (#[trigger] hs[j]).path == p;
            assert(prefix_has_path(hs, n as int, p));
        }
        assert forall|p: Seq<char>| !seq_has_path(hs, p) && s0.contains_key(p) implies (
        store@.contains_key(p) && store@[p] == s0[p]) by {
            assert(!prefix_has_path(hs, n as int, p)) by {
                if prefix_has_path(hs, n as int, p) {
                    let j = choose|j: int| 0 <= j < n && j < hs.len() && (#[trigger] hs[j]).path
                        == p;
                    assert(seq_has_path(hs, p));
                }
            }
        }
    }
}

/// Deletes the backing file of every handle in the bucket.
fn delete_icon_files(store: &mut FileStore, handles: &Vec<IconHandle>, Ghost(hs): Ghost<Seq<HandleView>>)
    requires
        old(store).wf(),
        hs == handles@.map_values(|h: IconHandle| h@),
    ensures
        final(store).wf(),
        forall|p: Seq<char>|
            #[trigger] seq_has_path(hs, p) ==> !final(store)@.contains_key(p),
        forall|p: Seq<char>|
            !(#[trigger] seq_has_path(hs, p)) && old(store)@.contains_key(p)
                ==> final(store)@.contains_key(p) && final(store)@[p] == old(store)@[p],
        forall|p: Seq<char>|
            #[trigger] final(store)@.contains_key(p) ==> old(store)@.contains_key(p),
{
    let ghost s0: Map<Seq<char>, FileContent> = store@;
    let n = handles.len();
    let mut k: usize = 0;
    while k < n
        invariant
            0 <= k <= n,
            n == handles@.len(),
            hs == handles@.map_values(|h: IconHandle| h@),
            s0 == old(store)@,
            store.wf(),
            forall|p: Seq<char>| #[trigger] prefix_has_path(hs, k as int, p) ==> !store@.contains_key(p),
            forall|p: Seq<char>|
                !(#[trigger] prefix_has_path(hs, k as int, p)) && s0.contains_key(p)
                    ==> store@.contains_key(p) && store@[p] == s0[p],
            forall|p: Seq<char>| #[trigger] s0.contains_key(p) || !s0.contains_key(p)
                ==> (store@.contains_key(p) ==> s0.contains_key(p)),
        decreases n - k,
    {
        let ghost smid: Map<Seq<char>, FileContent> = store@;
        store.delete(&handles[k].icon_path);
        proof {
            assert(hs[k as int] == handles@[k as int]@);
            let pk = hs[k as int].path;
            assert(store@ == smid.remove(pk));
            assert forall|p: Seq<char>| #[trigger] prefix_has_path(hs, k + 1, p)
                implies !store@.contains_key(p) by {
                if p != pk {
                    let j = choose|j: int| 0 <= j < k + 1 && j < hs.len() && (#[trigger] hs[j]).path
                        == p;
                    assert(j < k);
                    assert(prefix_has_path(hs, k as int, p));
                }
            }
            assert forall|p: Seq<char>|
                !(#[trigger] prefix_has_path(hs, k + 1, p)) && s0.contains_key(p)
                    implies store@.contains_key(p) && store@[p] == s0[p] by {
                assert(!prefix_has_path(hs, k as int, p)) by {
                    if prefix_has_path(hs, k as int, p) {
                        let j = choose|j: int|
                            0 <= j < k && j < hs.len() && (#[trigger] hs[j]).path == p;
                        assert(0 <= j < k + 1 && j < hs.len() && hs[j].path == p);
                    }
                }
                assert(p != pk) by {
                    if p == pk {
                        assert(0 <= k < k + 1 && (k as int) < hs.len() && hs[k as int].path == p);
                    }
                }
                assert(smid.contains_key(p) && smid[p] == s0[p]);
                assert(store@ == smid.remove(pk));
            }
        }
        k += 1;
    }
    proof {
        assert forall|p: Seq<char>| seq_has_path(hs, p) implies !store@.contains_key(p) by {
            let j = choose|j: int| 0 <= j < hs.len() && (#[trigger] hs[j]).path == p;
            assert(prefix_has_path(hs, n as int, p));
        }
        assert forall|p: Seq<char>| !seq_has_path(hs, p) && s0.contains_key(p) implies (
        store@.contains_key(p) && store@[p] == s0[p]) by {
            assert(!prefix_has_path(hs, n as int, p)) by {
                if prefix_has_path(hs, n as int, p) {
                    let j = choose|j: int| 0 <= j < n && j < hs.len() && (#[trigger] hs[j]).path
                        == p;
                    assert(seq_has_path(hs, p));
                }
            }
        }
    }
}

/// Taking the handle registered last under a lifetime back out, together
/// with its backing file, keeps an index pair well formed.
pub proof fn lemma_pop_handle_wf(
    ma0: Map<Lifetime, Seq<HandleView>>,
    mb: Map<Lifetime, Seq<HandleView>>,
    files0: Map<Seq<char>, FileContent>,
    lt: Lifetime,
)
    requires
        backed(ma0, files0),
        backed(mb, files0),
        self_distinct(ma0),
        self_distinct(mb),
        ma0.contains_key(lt),
        ma0[lt].len() > 0,
    ensures
        ({
            let hv = ma0[lt].last();
            let ma1 = ma0.insert(lt, ma0[lt].drop_last());
            let files1 = files0.remove(hv.path);
            &&& backed(ma1, files1)
            &&& self_distinct(ma1)
            &&& (cross_distinct(ma0, mb) ==> backed(mb, files1) && cross_distinct(ma1, mb))
            &&& (cross_distinct(mb, ma0) ==> backed(mb, files1) && cross_distinct(mb, ma1))
        }),
{
    let hv = ma0[lt].last();
    let ma1 = ma0.insert(lt, ma0[lt].drop_last());
    let files1 = files0.remove(hv.path);
    let lastj = ma0[lt].len() - 1;
    assert(m_has(ma0, lt, lastj) && m_at(ma0, lt, lastj) == hv);
    // every handle of the new index is an old handle, at a spot other than
    // the one taken out
    assert forall|l: Lifetime, j: int| m_has(ma1, l, j) implies (m_has(ma0, l, j) && m_at(
        ma1,
        l,
        j,
    ) == m_at(ma0, l, j) && !(l == lt && j == lastj)) by {
        if l == lt {
            assert(ma1[lt] == ma0[lt].drop_last());
            assert(ma0[lt].drop_last()[j] == ma0[lt][j]);
        } else {
            assert(ma1[l] == ma0[l]);
        }
    }
    assert forall|l: Lifetime, j: int| m_has(ma1, l, j) implies files1.contains_key(
        (#[trigger] m_at(ma1, l, j)).path,
    ) by {
        assert(m_at(ma0, l, j).path != hv.path);
        assert(files0.contains_key(m_at(ma0, l, j).path));
    }
    assert forall|l1: Lifetime, j1: int, l2: Lifetime, j2: int|
        #![trigger m_at(ma1, l1, j1), m_at(ma1, l2, j2)]
        m_has(ma1, l1, j1) && m_has(ma1, l2, j2) && !(l1 == l2 && j1 == j2) implies m_at(
        ma1,
        l1,
        j1,
    ).path != m_at(ma1, l2, j2).path by {
        assert(m_at(ma0, l1, j1).path != m_at(ma0, l2, j2).path);
    }
    if cross_distinct(ma0, mb) {
        assert forall|l: Lifetime, j: int| m_has(mb, l, j) implies files1.contains_key(
            (#[trigger] m_at(mb, l, j)).path,
        ) by {
            assert(m_at(ma0, lt, lastj).path != m_at(mb, l, j).path);
            assert(files0.contains_key(m_at(mb, l, j).path));
        }
        assert forall|l1: Lifetime, j1: int, l2: Lifetime, j2: int|
            #![trigger m_at(ma1, l1, j1), m_at(mb, l2, j2)]
            m_has(ma1, l1, j1) && m_has(mb, l2, j2) implies m_at(ma1, l1, j1).path != m_at(
            mb,
            l2,
            j2,
        ).path by {
            assert(m_at(ma0, l1, j1).path != m_at(mb, l2, j2).path);
        }
    }
    if cross_distinct(mb, ma0) {
        assert forall|l: Lifetime, j: int| m_has(mb, l, j) implies files1.contains_key(
            (#[trigger] m_at(mb, l, j)).path,
        ) by {
            assert(m_at(mb, l, j).path != m_at(ma0, lt, lastj).path);
            assert(files0.contains_key(m_at(mb, l, j).path));
        }
        assert forall|l1: Lifetime, j1: int, l2: Lifetime, j2: int|
            #![trigger m_at(mb, l1, j1), m_at(ma1, l2, j2)]
            m_has(mb, l1, j1) && m_has(ma1, l2, j2) implies m_at(mb, l1, j1).path != m_at(
            ma1,
            l2,
            j2,
        ).path by {
            assert(m_at(mb, l1, j1).path != m_at(ma0, l2, j2).path);
        }
    }
}

/// Adding one handle, backed by one fresh file, keeps an index pair well
/// formed.
pub proof fn lemma_insert_handle_wf(
    ma0: Map<Lifetime, Seq<HandleView>>,
    mb: Map<Lifetime, Seq<HandleView>>,
    files0: Map<Seq<char>, FileContent>,
    lt: Lifetime,
    hv: HandleView,
    c: FileContent,
)
    requires
        backed(ma0, files0),
        backed(mb, files0),
        self_distinct(ma0),
        self_distinct(mb),
        !files0.contains_key(hv.path),
    ensures
        ({
            let ma1 = ma0.insert(lt, bucket_or_empty(ma0, lt).push(hv));
            let files1 = files0.insert(hv.path, c);
            &&& backed(ma1, files1)
            &&& backed(mb, files1)
            &&& self_distinct(ma1)
            &&& (cross_distinct(ma0, mb) ==> cross_distinct(ma1, mb))
            &&& (cross_distinct(mb, ma0) ==> cross_distinct(mb, ma1))
        }),
{
    let prevb = bucket_or_empty(ma0, lt);
    let ma1 = ma0.insert(lt, prevb.push(hv));
    let files1 = files0.insert(hv.path, c);
    // each handle of the new index is an old handle at the same spot, or
    // the fresh one at the end of the lifetime's bucket
    assert forall|l: Lifetime, j: int| m_has(ma1, l, j) implies ((m_has(ma0, l, j) && m_at(
        ma1,
        l,
        j,
    ) == m_at(ma0, l, j)) || (l == lt && j == prevb.len() && m_at(ma1, l, j) == hv)) by {
        if l == lt {
            assert(ma1[lt] == prevb.push(hv));
            if j < prevb.len() {
                assert(prevb.push(hv)[j] == prevb[j]);
            } else {
                assert(j == prevb.len());
                assert(prevb.push(hv)[j] == hv);
            }
        } else {
            assert(ma1[l] == ma0[l]);
        }
    }
    assert forall|l: Lifetime, j: int| m_has(ma1, l, j) implies files1.contains_key(
        (#[trigger] m_at(ma1, l, j)).path,
    ) by {
        if m_has(ma0, l, j) && m_at(ma1, l, j) == m_at(ma0, l, j) {
            assert(files0.contains_key(m_at(ma0, l, j).path));
        } else {
            assert(m_at(ma1, l, j) == hv);
        }
    }
    assert forall|l: Lifetime, j: int| m_has(mb, l, j) implies files1.contains_key(
        (#[trigger] m_at(mb, l, j)).path,
    ) by {
        assert(files0.contains_key(m_at(mb, l, j).path));
    }
    assert forall|l1: Lifetime, j1: int, l2: Lifetime, j2: int|
        #![trigger m_at(ma1, l1, j1), m_at(ma1, l2, j2)]
        m_has(ma1, l1, j1) && m_has(ma1, l2, j2) && !(l1 == l2 && j1 == j2) implies m_at(
        ma1,
        l1,
        j1,
    ).path != m_at(ma1, l2, j2).path by {
        let a_old = m_has(ma0, l1, j1) && m_at(ma1, l1, j1) == m_at(ma0, l1, j1);
        let b_old = m_has(ma0, l2, j2) && m_at(ma1, l2, j2) == m_at(ma0, l2, j2);
        if a_old && b_old {
            assert(m_at(ma0, l1, j1).path != m_at(ma0, l2, j2).path);
        } else if a_old {
            assert(m_at(ma1, l2, j2) == hv);
            assert(files0.contains_key(m_at(ma0, l1, j1).path));
        } else if b_old {
            assert(m_at(ma1, l1, j1) == hv);
            assert(files0.contains_key(m_at(ma0, l2, j2).path));
        } else {
            assert(l1 == lt && j1 == prevb.len());
            assert(l2 == lt && j2 == prevb.len());
        }
    }
    if cross_distinct(ma0, mb) {
        assert forall|l1: Lifetime, j1: int, l2: Lifetime, j2: int|
            #![trigger m_at(ma1, l1, j1), m_at(mb, l2, j2)]
            m_has(ma1, l1, j1) && m_has(mb, l2, j2) implies m_at(ma1, l1, j1).path != m_at(
            mb,
            l2,
            j2,
        ).path by {
            if m_has(ma0, l1, j1) && m_at(ma1, l1, j1) == m_at(ma0, l1, j1) {
                assert(m_at(ma0, l1, j1).path != m_at(mb, l2, j2).path);
            } else {
                assert(m_at(ma1, l1, j1) == hv);
                assert(files0.contains_key(m_at(mb, l2, j2).path));
            }
        }
    }
    if cross_distinct(mb, ma0) {
        assert forall|l1: Lifetime, j1: int, l2: Lifetime, j2: int|
            #![trigger m_at(mb, l1, j1), m_at(ma1, l2, j2)]
            m_has(mb, l1, j1) && m_has(ma1, l2, j2) implies m_at(mb, l1, j1).path != m_at(
            ma1,
            l2,
            j2,
        ).path by {
            if m_has(ma0, l2, j2) && m_at(ma1, l2, j2) == m_at(ma0, l2, j2) {
                assert(m_at(mb, l1, j1).path != m_at(ma0, l2, j2).path);
            } else {
                assert(m_at(ma1, l2, j2) == hv);
                assert(files0.contains_key(m_at(mb, l1, j1).path));
            }
        }
    }
}

} // verus!
