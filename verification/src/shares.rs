//! Shared files and bundles: what the desktop side offers for download.
use vstd::prelude::*;
use crate::assoc::Assoc;
use crate::settings::AppSettings;
use crate::timefmt::{received_time, received_time_text};
use crate::num::{decimal, decimal_exec};
use crate::text::{chars_of, string_of, extend_chars, to_ascii_lower, ascii_lower};
use crate::outside::{sample_alphanumeric, is_alnum_ascii};

verus! {

/// A shared file: its display name, its path on disk and its size.
pub struct FileEntry {
    pub name: String,
    pub path: String,
    pub size: u64,
}

/// One file of a bundle as the share list shows it.
pub struct BundleFileInfo {
    pub name: String,
    pub size: u64,
}

/// A bundle as the share list shows it.
pub struct SharedFile {
    pub id: String,
    pub name: String,
    pub size: u64,
    pub url: String,
    pub files: Vec<BundleFileInfo>,
}

/// Where the phone-side pages are served.
pub struct ServerInfo {
    pub url: String,
    pub lan_ip: String,
    pub port: u16,
    pub send_url: String,
}

/// A record of a file received from a phone.
pub struct ReceivedFile {
    pub name: String,
    pub size: u64,
    pub time: String,
    pub path: String,
    pub exists: bool,
    pub batch: u64,
    pub device: String,
}

/// A file chosen for sharing that exists on disk: its path, file name and size.
pub struct LocalFile {
    pub path: String,
    pub name: String,
    pub size: u64,
}

/// `(name, size)` of a listed file.
pub open spec fn info_view(i: BundleFileInfo) -> (Seq<char>, u64) {
    (i.name@, i.size)
}

/// The share-list entry of a bundle as plain values.
pub struct SharedFileView {
    pub id: Seq<char>,
    pub name: Seq<char>,
    pub size: u64,
    pub url: Seq<char>,
    pub files: Seq<(Seq<char>, u64)>,
}

impl View for SharedFile {
    type V = SharedFileView;

    open spec fn view(&self) -> SharedFileView {
        SharedFileView {
            id: self.id@,
            name: self.name@,
            size: self.size,
            url: self.url@,
            files: self.files@.map_values(|i: BundleFileInfo| info_view(i)),
        }
    }
}

/// The texts of a vector of strings.
pub open spec fn texts(v: Seq<String>) -> Seq<Seq<char>> {
    v.map_values(|s: String| s@)
}

/// `http://<ip>:<port>`.
pub open spec fn base_url(lan_ip: Seq<char>, port: u16) -> Seq<char> {
    "http://"@ + lan_ip + seq![':'] + decimal(port as nat)
}

/// `http://<ip>:<port>/s/<bundle id>`: the address a QR code carries.
pub open spec fn bundle_url(lan_ip: Seq<char>, port: u16, id: Seq<char>) -> Seq<char> {
    base_url(lan_ip, port) + "/s/"@ + id
}

/// A bundle's title: the name of its only file, else `<n> files`.
pub open spec fn display_name(names: Seq<Seq<char>>) -> Seq<char> {
    if names.len() == 1 {
        names[0]
    } else {
        decimal(names.len()) + " files"@
    }
}

pub open spec fn sum_sizes(sizes: Seq<u64>) -> nat
    decreases sizes.len(),
{
    if sizes.len() == 0 {
        0
    } else {
        sum_sizes(sizes.drop_last()) + (sizes.last() as nat)
    }
}

pub fn base_url_exec(lan_ip: &str, port: u16) -> (r: Vec<char>)
    ensures
        r@ == base_url(lan_ip@, port),
{
    let mut r = chars_of("http://");
    let ip = chars_of(lan_ip);
    extend_chars(&mut r, &ip);
    r.push(':');
    let p = decimal_exec(port as u64);
    extend_chars(&mut r, &p);
    r
}

pub fn bundle_url_exec(lan_ip: &str, port: u16, id: &String) -> (r: String)
    ensures
        r@ == bundle_url(lan_ip@, port, id@),
{
    let mut r = base_url_exec(lan_ip, port);
    let s = chars_of("/s/");
    extend_chars(&mut r, &s);
    let i = chars_of(id.as_str());
    extend_chars(&mut r, &i);
    string_of(&r)
}

pub fn display_name_exec(names: &Vec<String>) -> (r: String)
    ensures
        r@ == display_name(texts(names@)),
{
    if names.len() == 1 {
        names[0].clone()
    } else {
        let mut r = decimal_exec(names.len() as u64);
        let f = chars_of(" files");
        extend_chars(&mut r, &f);
        string_of(&r)
    }
}

/// The file names of `files`, in order.
pub fn local_name_list(files: &Vec<LocalFile>) -> (r: Vec<String>)
    ensures
        texts(r@) == local_names(files@),
{
    let mut names: Vec<String> = Vec::new();
    let mut i: usize = 0;
    while i < files.len()
        invariant
            i <= files.len(),
            names@.len() == i,
            texts(names@) == local_names(files@).take(i as int),
        decreases files.len() - i,
    {
        let ghost old_names = names@;
        names.push(files[i].name.clone());
        assert(texts(names@) =~= local_names(files@).take(i + 1)) by {
            assert(names@ == old_names.push(names@[i as int]));
        }
        i = i + 1;
    }
    assert(local_names(files@).take(i as int) =~= local_names(files@));
    names
}

/// Server addresses for the settings page: the same base URL twice.
pub fn get_server_info(lan_ip: &String, port: u16) -> (r: ServerInfo)
    ensures
        r.url@ == base_url(lan_ip@, port),
        r.send_url@ == base_url(lan_ip@, port),
        r.lan_ip@ == lan_ip@,
        r.port == port,
{
    let base = base_url_exec(lan_ip.as_str(), port);
    ServerInfo { url: string_of(&base), lan_ip: lan_ip.clone(), port, send_url: string_of(&base) }
}


/// The stored entry of a local file.
pub open spec fn entry_of(f: LocalFile) -> FileEntry {
    FileEntry { name: f.name, path: f.path, size: f.size }
}

pub open spec fn local_names(files: Seq<LocalFile>) -> Seq<Seq<char>> {
    files.map_values(|f: LocalFile| f.name@)
}

pub open spec fn local_sizes(files: Seq<LocalFile>) -> Seq<u64> {
    files.map_values(|f: LocalFile| f.size)
}

pub open spec fn local_infos(files: Seq<LocalFile>) -> Seq<(Seq<char>, u64)> {
    files.map_values(|f: LocalFile| (f.name@, f.size))
}

/// `m` after inserting `keys[i] -> vals[i]` for each `i` in order.
pub open spec fn insert_all(m: Map<Seq<char>, FileEntry>, keys: Seq<Seq<char>>, vals: Seq<FileEntry>) -> Map<Seq<char>, FileEntry>
    decreases keys.len(),
{
    if keys.len() == 0 || vals.len() == 0 {
        m
    } else {
        insert_all(m, keys.drop_last(), vals.drop_last()).insert(keys.last(), vals.last())
    }
}

pub proof fn lemma_sum_prefix(sizes: Seq<u64>, i: int)
    requires
        0 <= i <= sizes.len(),
    ensures
        sum_sizes(sizes.take(i)) <= sum_sizes(sizes),
    decreases sizes.len() - i,
{
    if i < sizes.len() {
        lemma_sum_prefix(sizes, i + 1);
        assert(sizes.take(i + 1).drop_last() =~= sizes.take(i));
    } else {
        assert(sizes.take(i) =~= sizes);
    }
}

/// The shared files and the bundles that group them.
pub struct ShareStore {
    pub files: Assoc<FileEntry>,
    pub bundles: Assoc<Vec<String>>,
}

impl ShareStore {
    /// Shared files by id.
    pub open spec fn file_map(&self) -> Map<Seq<char>, FileEntry> {
        self.files.map()
    }

    /// Bundles by id: the ids of their files.
    pub open spec fn bundle_map(&self) -> Map<Seq<char>, Vec<String>> {
        self.bundles.map()
    }

    /// An empty store.
    pub fn new() -> (r: Self)
        ensures
            r.file_map() == Map::<Seq<char>, FileEntry>::empty(),
            r.bundle_map() == Map::<Seq<char>, Vec<String>>::empty(),
    {
        ShareStore { files: Assoc::new(), bundles: Assoc::new() }
    }

    /// Stores the `i`-th file of `files` under `file_ids[i]`; bundles stay.
    fn insert_files(&mut self, files: &Vec<LocalFile>, file_ids: &Vec<String>)
        requires
            file_ids.len() == files.len(),
        ensures
            final(self).bundles == old(self).bundles,
            final(self).file_map() == insert_all(
                old(self).file_map(),
                texts(file_ids@),
                files@.map_values(|f: LocalFile| entry_of(f)),
            ),
    {
        let ghost entries = files@.map_values(|f: LocalFile| entry_of(f));
        let mut i: usize = 0;
        while i < files.len()
            invariant
                i <= files.len(),
                file_ids.len() == files.len(),
                self.bundles == old(self).bundles,
                entries == files@.map_values(|f: LocalFile| entry_of(f)),
                self.file_map() == insert_all(old(self).file_map(), texts(file_ids@).take(i as int), entries.take(i as int)),
            decreases files.len() - i,
        {
            let f = &files[i];
            let entry = FileEntry { name: f.name.clone(), path: f.path.clone(), size: f.size };
            assert(entry == entry_of(files@[i as int]));
            assert(texts(file_ids@).take(i + 1).drop_last() =~= texts(file_ids@).take(i as int));
            assert(entries.take(i + 1).drop_last() =~= entries.take(i as int));
            self.files.insert(file_ids[i].clone(), entry);
            i = i + 1;
        }
        assert(texts(file_ids@).take(i as int) =~= texts(file_ids@));
        assert(entries.take(i as int) =~= entries);
    }

    /// Shares `files` as a new bundle `bundle_id`, the `i`-th file under
    /// `file_ids[i]`, and returns the bundle's share-list entry.
    pub fn share_files_with_ids(
        &mut self,
        files: &Vec<LocalFile>,
        bundle_id: String,
        file_ids: Vec<String>,
        lan_ip: &str,
        port: u16,
    ) -> (r: SharedFile)
        requires
            file_ids.len() == files.len(),
            sum_sizes(local_sizes(files@)) <= u64::MAX,
        ensures
            final(self).file_map() == insert_all(
                old(self).file_map(),
                texts(file_ids@),
                files@.map_values(|f: LocalFile| entry_of(f)),
            ),
            final(self).bundle_map() == old(self).bundle_map().insert(bundle_id@, file_ids),
            r@ == (SharedFileView {
                id: bundle_id@,
                name: display_name(local_names(files@)),
                size: sum_sizes(local_sizes(files@)) as u64,
                url: bundle_url(lan_ip@, port, bundle_id@),
                files: local_infos(files@),
            }),
    {
        self.insert_files(files, &file_ids);
        let mut infos: Vec<BundleFileInfo> = Vec::new();
        let mut total: u64 = 0;
        let mut i: usize = 0;
        while i < files.len()
            invariant
                i <= files.len(),
                sum_sizes(local_sizes(files@)) <= u64::MAX,
                infos@.len() == i,
                total == sum_sizes(local_sizes(files@).take(i as int)),
                infos@.map_values(|x: BundleFileInfo| info_view(x)) == local_infos(files@).take(i as int),
            decreases files.len() - i,
        {
            let f = &files[i];
            proof {
                lemma_sum_prefix(local_sizes(files@), i + 1);
                assert(local_sizes(files@).take(i + 1).drop_last() =~= local_sizes(files@).take(i as int));
            }
            total = total + f.size;
            let ghost old_infos = infos@;
            infos.push(BundleFileInfo { name: f.name.clone(), size: f.size });
            assert(infos@.map_values(|x: BundleFileInfo| info_view(x)) =~= local_infos(files@).take(i + 1)) by {
                assert(infos@ == old_infos.push(infos@[i as int]));
            }
            i = i + 1;
        }
        assert(local_sizes(files@).take(i as int) =~= local_sizes(files@));
        assert(local_infos(files@).take(i as int) =~= local_infos(files@));
        let name = display_name_exec(&local_name_list(files));
        let url = bundle_url_exec(lan_ip, port, &bundle_id);
        let id = bundle_id.clone();
        self.bundles.insert(bundle_id, file_ids);
        SharedFile { id, name, size: total, url, files: infos }
    }

    /// Stops sharing bundle `id`: the bundle and all of its files leave the store.
    pub fn stop_share(&mut self, id: &String)
        ensures
            final(self).bundle_map() == old(self).bundle_map().remove(id@),
            final(self).file_map() == files_after_stop(old(self).file_map(), old(self).bundle_map(), id@),
    {
        match self.bundles.remove(id) {
            None => {},
            Some(fids) => {
                let ghost ks = texts(fids@);
                let mut i: usize = 0;
                assert(ks.take(0).to_set() =~= Set::<Seq<char>>::empty());
                assert(old(self).file_map().remove_keys(Set::<Seq<char>>::empty()) =~= old(self).file_map());
                while i < fids.len()
                    invariant
                        i <= fids.len(),
                        ks == texts(fids@),
                        self.bundle_map() == old(self).bundle_map().remove(id@),
                        self.file_map() == old(self).file_map().remove_keys(ks.take(i as int).to_set()),
                    decreases fids.len() - i,
                {
                    let ghost before = self.file_map();
                    self.files.remove(&fids[i]);
                    assert(ks.take(i + 1).to_set() =~= ks.take(i as int).to_set().insert(ks[i as int])) by {
                        lemma_push_to_set(ks.take(i as int), ks[i as int]);
                        assert(ks.take(i + 1) =~= ks.take(i as int).push(ks[i as int]));
                    }
                    assert(self.file_map() =~= old(self).file_map().remove_keys(ks.take(i + 1).to_set()));
                    i = i + 1;
                }
                assert(ks.take(i as int) =~= ks);
            },
        }
    }

    /// The bundle's share-list entry for the bundle `id` with file ids `fids`:
    /// files no longer shared are left out.
    pub fn bundle_summary(&self, id: &String, fids: &Vec<String>, lan_ip: &str, port: u16) -> (r: SharedFile)
        requires
            sum_infos(listed_files(self.file_map(), texts(fids@))) <= u64::MAX,
        ensures
            r@ == bundle_entry(self.file_map(), id@, texts(fids@), lan_ip@, port),
    {
        let ghost fm = self.file_map();
        let ghost ks = texts(fids@);
        let mut infos: Vec<BundleFileInfo> = Vec::new();
        let mut names: Vec<String> = Vec::new();
        let mut total: u64 = 0;
        let mut i: usize = 0;
        while i < fids.len()
            invariant
                i <= fids.len(),
                fm == self.file_map(),
                ks == texts(fids@),
                sum_infos(listed_files(fm, ks)) <= u64::MAX,
                infos@.map_values(|x: BundleFileInfo| info_view(x)) == listed_files(fm, ks.take(i as int)),
                texts(names@) == listed_files(fm, ks.take(i as int)).map_values(|p: (Seq<char>, u64)| p.0),
                total == sum_infos(listed_files(fm, ks.take(i as int))),
                infos@.len() == listed_files(fm, ks.take(i as int)).len(),
                names@.len() == listed_files(fm, ks.take(i as int)).len(),
            decreases fids.len() - i,
        {
            assert(ks.take(i + 1).drop_last() =~= ks.take(i as int));
            assert(ks.take(i + 1).last() == fids@[i as int]@);
            proof { lemma_listed_prefix(fm, ks, i + 1); }
            let ghost l0 = listed_files(fm, ks.take(i as int));
            match self.files.get(&fids[i]) {
                Some(e) => {
                    assert(listed_files(fm, ks.take(i + 1)) == l0.push((e.name@, e.size)));
                    assert(l0.push((e.name@, e.size)).drop_last() =~= l0);
                    assert(sum_infos(l0.push((e.name@, e.size))) == sum_infos(l0) + e.size);
                    total = total + e.size;
                    let ghost old_infos = infos@;
                    infos.push(BundleFileInfo { name: e.name.clone(), size: e.size });
                    assert(infos@.map_values(|x: BundleFileInfo| info_view(x)) =~= listed_files(fm, ks.take(i + 1))) by {
                        assert(infos@ == old_infos.push(infos@[old_infos.len() as int]));
                    }
                    let ghost old_names = names@;
                    names.push(e.name.clone());
                    assert(texts(names@) =~= listed_files(fm, ks.take(i + 1)).map_values(|p: (Seq<char>, u64)| p.0)) by {
                        assert(names@ == old_names.push(names@[old_names.len() as int]));
                        assert(names@[old_names.len() as int]@ == e.name@);
                        assert(texts(names@) =~= texts(old_names).push(e.name@));
                        assert(l0.push((e.name@, e.size)).map_values(|p: (Seq<char>, u64)| p.0)
                            =~= l0.map_values(|p: (Seq<char>, u64)| p.0).push(e.name@));
                    }
                },
                None => {
                    assert(listed_files(fm, ks.take(i + 1)) == l0);
                },
            }
            i = i + 1;
        }
        assert(ks.take(i as int) =~= ks);
        let name = display_name_exec(&names);
        let url = bundle_url_exec(lan_ip, port, id);
        SharedFile { id: id.clone(), name, size: total, url, files: infos }
    }

    /// The share list: one entry per bundle, in store order.
    pub fn get_active_shares(&self, lan_ip: &str, port: u16) -> (r: Vec<SharedFile>)
        requires
            self.totals_fit(),
        ensures
            r@.map_values(|x: SharedFile| x@) == self.bundles.entries().map_values(
                |e: (String, Vec<String>)| bundle_entry(self.file_map(), e.0@, texts(e.1@), lan_ip@, port),
            ),
    {
        let ghost want = self.bundles.entries().map_values(
            |e: (String, Vec<String>)| bundle_entry(self.file_map(), e.0@, texts(e.1@), lan_ip@, port),
        );
        let mut out: Vec<SharedFile> = Vec::new();
        let mut i: usize = 0;
        while i < self.bundles.len()
            invariant
                i <= self.bundles.entries().len(),
                self.totals_fit(),
                want == self.bundles.entries().map_values(
                    |e: (String, Vec<String>)| bundle_entry(self.file_map(), e.0@, texts(e.1@), lan_ip@, port),
                ),
                out@.map_values(|x: SharedFile| x@) == want.take(i as int),
                out@.len() == i,
            decreases self.bundles.entries().len() - i,
        {
            let sf = self.bundle_summary(self.bundles.key_at(i), self.bundles.value_at(i), lan_ip, port);
            let ghost old_out = out@;
            out.push(sf);
            assert(out@.map_values(|x: SharedFile| x@) =~= want.take(i + 1)) by {
                assert(out@ == old_out.push(out@[old_out.len() as int]));
            }
            i = i + 1;
        }
        assert(want.take(i as int) =~= want);
        out
    }

    /// Every bundle's listed total fits in 64 bits.
    pub open spec fn totals_fit(&self) -> bool {
        forall|i: int| 0 <= i < self.bundles.entries().len() ==>
            sum_infos(listed_files(self.file_map(), texts(#[trigger] self.bundles.entries()[i].1@))) <= u64::MAX
    }

    /// Stops every share.
    pub fn clear_all_shares(&mut self)
        ensures
            final(self).file_map() == Map::<Seq<char>, FileEntry>::empty(),
            final(self).bundle_map() == Map::<Seq<char>, Vec<String>>::empty(),
    {
        self.files.clear();
        self.bundles.clear();
    }
}

proof fn lemma_push_to_set(s: Seq<Seq<char>>, x: Seq<char>)
    ensures
        s.push(x).to_set() =~= s.to_set().insert(x),
{
    assert forall|y: Seq<char>| #[trigger] s.push(x).contains(y) == (s.contains(y) || y == x) by {
        if s.push(x).contains(y) {
            let j = choose|j: int| 0 <= j < s.push(x).len() && s.push(x)[j] == y;
            if j < s.len() {
                assert(s[j] == y);
            }
        }
        if s.contains(y) {
            let j = choose|j: int| 0 <= j < s.len() && s[j] == y;
            assert(s.push(x)[j] == y);
        }
        if y == x {
            assert(s.push(x)[s.len() as int] == y);
        }
    }
}

/// The shared files once bundle `id` is stopped: its files are gone.
pub open spec fn files_after_stop(
    files: Map<Seq<char>, FileEntry>,
    bundles: Map<Seq<char>, Vec<String>>,
    id: Seq<char>,
) -> Map<Seq<char>, FileEntry> {
    if bundles.contains_key(id) {
        files.remove_keys(texts(bundles[id]@).to_set())
    } else {
        files
    }
}

proof fn lemma_insert_all_outside(m: Map<Seq<char>, FileEntry>, keys: Seq<Seq<char>>, vals: Seq<FileEntry>, k: Seq<char>)
    requires
        !keys.contains(k),
    ensures
        insert_all(m, keys, vals).contains_key(k) == m.contains_key(k),
        m.contains_key(k) ==> insert_all(m, keys, vals)[k] == m[k],
    decreases keys.len(),
{
    if keys.len() > 0 && vals.len() > 0 {
        assert(!keys.drop_last().contains(k)) by {
            if keys.drop_last().contains(k) {
                let j = choose|j: int| 0 <= j < keys.drop_last().len() && keys.drop_last()[j] == k;
                assert(keys[j] == k);
            }
        }
        assert(keys.last() != k) by {
            assert(keys[keys.len() - 1] == keys.last());
        }
        lemma_insert_all_outside(m, keys.drop_last(), vals.drop_last(), k);
    }
}

proof fn lemma_insert_all_inside(m: Map<Seq<char>, FileEntry>, keys: Seq<Seq<char>>, vals: Seq<FileEntry>, k: Seq<char>)
    requires
        keys.contains(k),
        keys.len() == vals.len(),
    ensures
        insert_all(m, keys, vals).contains_key(k),
    decreases keys.len(),
{
    if keys.last() != k {
        assert(keys.drop_last().contains(k)) by {
            let j = choose|j: int| 0 <= j < keys.len() && keys[j] == k;
            assert(j != keys.len() - 1);
            assert(keys.drop_last()[j] == k);
        }
        lemma_insert_all_inside(m, keys.drop_last(), vals.drop_last(), k);
    }
}

/// Sharing files as a new bundle under fresh ids, then stopping that bundle,
/// leaves the shared files and bundles as they were.
pub proof fn law_stop_share_undoes_share(
    files: Map<Seq<char>, FileEntry>,
    bundles: Map<Seq<char>, Vec<String>>,
    bundle_id: Seq<char>,
    file_ids: Vec<String>,
    local: Seq<LocalFile>,
)
    requires
        !bundles.contains_key(bundle_id),
        file_ids.len() == local.len(),
        forall|k: Seq<char>| #[trigger] texts(file_ids@).contains(k) ==> !files.contains_key(k),
    ensures
        ({
            let shared_files = insert_all(files, texts(file_ids@), local.map_values(|f: LocalFile| entry_of(f)));
            let shared_bundles = bundles.insert(bundle_id, file_ids);
            &&& files_after_stop(shared_files, shared_bundles, bundle_id) == files
            &&& shared_bundles.remove(bundle_id) == bundles
        }),
{
    let keys = texts(file_ids@);
    let vals = local.map_values(|f: LocalFile| entry_of(f));
    let shared_files = insert_all(files, keys, vals);
    let shared_bundles = bundles.insert(bundle_id, file_ids);
    assert(shared_bundles[bundle_id] == file_ids);
    let after = shared_files.remove_keys(keys.to_set());
    assert forall|k: Seq<char>| #[trigger] after.contains_key(k) == files.contains_key(k) by {
        if keys.contains(k) {
            lemma_insert_all_inside(files, keys, vals, k);
        } else {
            lemma_insert_all_outside(files, keys, vals, k);
        }
    }
    assert forall|k: Seq<char>| #[trigger] after.contains_key(k) implies after[k] == files[k] by {
        lemma_insert_all_outside(files, keys, vals, k);
    }
    assert(after =~= files);
    assert(shared_bundles.remove(bundle_id) =~= bundles);
}


/// The `(name, size)` of each id of `fids` that is still shared, in order.
pub open spec fn listed_files(fm: Map<Seq<char>, FileEntry>, fids: Seq<Seq<char>>) -> Seq<(Seq<char>, u64)>
    decreases fids.len(),
{
    if fids.len() == 0 {
        Seq::empty()
    } else {
        let rest = listed_files(fm, fids.drop_last());
        if fm.contains_key(fids.last()) {
            rest.push((fm[fids.last()].name@, fm[fids.last()].size))
        } else {
            rest
        }
    }
}

pub open spec fn sum_infos(infos: Seq<(Seq<char>, u64)>) -> nat
    decreases infos.len(),
{
    if infos.len() == 0 {
        0
    } else {
        sum_infos(infos.drop_last()) + (infos.last().1 as nat)
    }
}

/// The share-list entry of bundle `id`.
pub open spec fn bundle_entry(
    fm: Map<Seq<char>, FileEntry>,
    id: Seq<char>,
    fids: Seq<Seq<char>>,
    lan_ip: Seq<char>,
    port: u16,
) -> SharedFileView {
    let infos = listed_files(fm, fids);
    SharedFileView {
        id: id,
        name: display_name(infos.map_values(|p: (Seq<char>, u64)| p.0)),
        size: sum_infos(infos) as u64,
        url: bundle_url(lan_ip, port, id),
        files: infos,
    }
}

proof fn lemma_listed_prefix(fm: Map<Seq<char>, FileEntry>, ks: Seq<Seq<char>>, i: int)
    requires
        0 <= i <= ks.len(),
    ensures
        sum_infos(listed_files(fm, ks.take(i))) <= sum_infos(listed_files(fm, ks)),
    decreases ks.len() - i,
{
    if i < ks.len() {
        lemma_listed_prefix(fm, ks, i + 1);
        assert(ks.take(i + 1).drop_last() =~= ks.take(i));
        let l0 = listed_files(fm, ks.take(i));
        let k = ks.take(i + 1).last();
        if fm.contains_key(k) {
            let x = (fm[k].name@, fm[k].size);
            assert(l0.push(x).drop_last() =~= l0);
            assert(sum_infos(listed_files(fm, ks.take(i + 1))) == sum_infos(l0) + x.1);
        }
    } else {
        assert(ks.take(i) =~= ks);
    }
}


proof fn lemma_insert_all_at(m: Map<Seq<char>, FileEntry>, keys: Seq<Seq<char>>, vals: Seq<FileEntry>, j: int)
    requires
        keys.no_duplicates(),
        keys.len() == vals.len(),
        0 <= j < keys.len(),
    ensures
        insert_all(m, keys, vals).contains_key(keys[j]),
        insert_all(m, keys, vals)[keys[j]] == vals[j],
    decreases keys.len(),
{
    if j < keys.len() - 1 {
        assert(keys.drop_last()[j] == keys[j]);
        assert(keys.drop_last().no_duplicates());
        assert(keys.last() != keys[j]);
        lemma_insert_all_at(m, keys.drop_last(), vals.drop_last(), j);
    }
}

proof fn lemma_listed_all(fm: Map<Seq<char>, FileEntry>, keys: Seq<Seq<char>>, vals: Seq<FileEntry>)
    requires
        keys.len() == vals.len(),
        forall|j: int| 0 <= j < keys.len() ==> fm.contains_key(#[trigger] keys[j]) && fm[keys[j]] == vals[j],
    ensures
        listed_files(fm, keys) == vals.map_values(|e: FileEntry| (e.name@, e.size)),
    decreases keys.len(),
{
    if keys.len() > 0 {
        let (k0, v0) = (keys.drop_last(), vals.drop_last());
        assert forall|j: int| 0 <= j < k0.len() implies fm.contains_key(#[trigger] k0[j]) && fm[k0[j]] == v0[j] by {
            assert(k0[j] == keys[j]);
        }
        lemma_listed_all(fm, k0, v0);
        assert(keys[keys.len() - 1] == keys.last());
        assert(vals.map_values(|e: FileEntry| (e.name@, e.size))
            =~= v0.map_values(|e: FileEntry| (e.name@, e.size)).push((vals.last().name@, vals.last().size)));
    } else {
        assert(vals.map_values(|e: FileEntry| (e.name@, e.size)) =~= Seq::<(Seq<char>, u64)>::empty());
    }
}

proof fn lemma_sum_infos_local(local: Seq<LocalFile>)
    ensures
        sum_infos(local_infos(local)) == sum_sizes(local_sizes(local)),
    decreases local.len(),
{
    if local.len() > 0 {
        lemma_sum_infos_local(local.drop_last());
        assert(local_infos(local).drop_last() =~= local_infos(local.drop_last()));
        assert(local_sizes(local).drop_last() =~= local_sizes(local.drop_last()));
        assert(local_infos(local).last() == local_infos(local)[local.len() - 1]);
        assert(local_sizes(local).last() == local_sizes(local)[local.len() - 1]);
    }
}

/// Right after a share under distinct file ids, the share list shows the new
/// bundle exactly as sharing returned it: same title, total, address and files.
pub proof fn law_shared_bundle_is_listed(
    files: Map<Seq<char>, FileEntry>,
    bundle_id: Seq<char>,
    file_ids: Seq<Seq<char>>,
    local: Seq<LocalFile>,
    lan_ip: Seq<char>,
    port: u16,
)
    requires
        file_ids.len() == local.len(),
        file_ids.no_duplicates(),
    ensures
        bundle_entry(insert_all(files, file_ids, local.map_values(|f: LocalFile| entry_of(f))), bundle_id, file_ids, lan_ip, port)
            == (SharedFileView {
                id: bundle_id,
                name: display_name(local_names(local)),
                size: sum_sizes(local_sizes(local)) as u64,
                url: bundle_url(lan_ip, port, bundle_id),
                files: local_infos(local),
            }),
{
    let vals = local.map_values(|f: LocalFile| entry_of(f));
    let fm = insert_all(files, file_ids, vals);
    assert forall|j: int| 0 <= j < file_ids.len() implies fm.contains_key(#[trigger] file_ids[j]) && fm[file_ids[j]] == vals[j] by {
        lemma_insert_all_at(files, file_ids, vals, j);
    }
    lemma_listed_all(fm, file_ids, vals);
    assert(vals.map_values(|e: FileEntry| (e.name@, e.size)) =~= local_infos(local));
    lemma_sum_infos_local(local);
    assert(local_infos(local).map_values(|p: (Seq<char>, u64)| p.0) =~= local_names(local));
}


/// A character of a share id: a lower-case ASCII letter or a digit.
pub open spec fn is_id_char(c: char) -> bool {
    ('a' <= c && c <= 'z') || ('0' <= c && c <= '9')
}

/// An eight-character share id: random alphanumerics from `rand`,
/// lower-cased.
pub fn random_share_id() -> (r: String)
    ensures
        r@.len() == 8,
        forall|i: int| 0 <= i < 8 ==> is_id_char(#[trigger] r@[i]),
{
    let mut v: Vec<char> = Vec::new();
    let mut i: usize = 0;
    while i < 8
        invariant
            i <= 8,
            v@.len() == i,
            forall|j: int| 0 <= j < i ==> is_id_char(#[trigger] v@[j]),
        decreases 8 - i,
    {
        let b = sample_alphanumeric();
        let c = to_ascii_lower(b as char);
        assert(is_id_char(c)) by {
            assert((b as char) as u32 == b as u32);
        }
        v.push(c);
        i = i + 1;
    }
    string_of(&v)
}

/// The ids are eight lower-case alphanumerics each.
pub open spec fn is_share_id(s: Seq<char>) -> bool {
    s.len() == 8 && forall|i: int| 0 <= i < 8 ==> is_id_char(#[trigger] s[i])
}

/// `n` random share ids.
pub fn random_share_ids(n: usize) -> (r: Vec<String>)
    ensures
        r@.len() == n,
        forall|j: int| 0 <= j < n ==> is_share_id(#[trigger] r@[j]@),
{
    let mut ids: Vec<String> = Vec::new();
    let mut i: usize = 0;
    while i < n
        invariant
            i <= n,
            ids@.len() == i,
            forall|j: int| 0 <= j < i ==> is_share_id(#[trigger] ids@[j]@),
        decreases n - i,
    {
        ids.push(random_share_id());
        i = i + 1;
    }
    ids
}

impl ShareStore {
    /// Shares `files` as a new bundle under random ids and returns the
    /// bundle's share-list entry. Apart from the ids, which are chance, the
    /// outcome is that of [`ShareStore::share_files_with_ids`].
    pub fn share_files(&mut self, files: &Vec<LocalFile>, lan_ip: &str, port: u16) -> (r: SharedFile)
        requires
            sum_sizes(local_sizes(files@)) <= u64::MAX,
        ensures
            is_share_id(r.id@),
            final(self).bundle_map().contains_key(r.id@),
            ({
                let ids = final(self).bundle_map()[r.id@];
                &&& ids.len() == files.len()
                &&& forall|i: int| 0 <= i < ids.len() ==> is_share_id(#[trigger] ids@[i]@)
                &&& final(self).bundle_map() == old(self).bundle_map().insert(r.id@, ids)
                &&& final(self).file_map() == insert_all(
                    old(self).file_map(),
                    texts(ids@),
                    files@.map_values(|f: LocalFile| entry_of(f)),
                )
            }),
            r@ == (SharedFileView {
                id: r.id@,
                name: display_name(local_names(files@)),
                size: sum_sizes(local_sizes(files@)) as u64,
                url: bundle_url(lan_ip@, port, r.id@),
                files: local_infos(files@),
            }),
    {
        let bundle_id = random_share_id();
        let ids = random_share_ids(files.len());
        let ghost gids = ids;
        let r = self.share_files_with_ids(files, bundle_id, ids, lan_ip, port);
        assert(self.bundle_map()[r.id@] == gids);
        r
    }
}


/// A bundle shared from the command line: its id, title and address.
pub struct CliShare {
    pub id: String,
    pub name: String,
    pub url: String,
}

/// Shares paths given on the command line (or forwarded by a second
/// instance) as one bundle under random ids and stores the QR popup's
/// address and title.
pub fn process_cli_paths(
    store: &mut ShareStore,
    settings: &mut AppSettings,
    files: &Vec<LocalFile>,
    lan_ip: &str,
    port: u16,
) -> (r: CliShare)
    ensures
        is_share_id(r.id@),
        final(store).bundle_map().contains_key(r.id@),
        ({
            let ids = final(store).bundle_map()[r.id@];
            &&& ids.len() == files.len()
            &&& forall|i: int| 0 <= i < ids.len() ==> is_share_id(#[trigger] ids@[i]@)
            &&& final(store).bundle_map() == old(store).bundle_map().insert(r.id@, ids)
            &&& final(store).file_map() == insert_all(
                old(store).file_map(),
                texts(ids@),
                files@.map_values(|f: LocalFile| entry_of(f)),
            )
        }),
        r.name@ == display_name(local_names(files@)),
        r.url@ == bundle_url(lan_ip@, port, r.id@),
        final(settings).popup_data matches Some((u, n)) && u@ == r.url@ && n@ == r.name@,
        *final(settings) == (AppSettings { popup_data: final(settings).popup_data, ..*old(settings) }),
{
    let bundle_id = random_share_id();
    let ids = random_share_ids(files.len());
    let ghost gids = ids;
    store.insert_files(files, &ids);
    let name = display_name_exec(&local_name_list(files));
    let url = bundle_url_exec(lan_ip, port, &bundle_id);
    let id = bundle_id.clone();
    store.bundles.insert(bundle_id, ids);
    assert(store.bundle_map()[id@] == gids);
    settings.store_popup_data(url.clone(), name.clone());
    CliShare { id, name, url }
}

/// The record kept of a received file.
pub fn record_received(name: String, size: u64, unix_secs: u64, path: String, batch: u64, device: String) -> (r: ReceivedFile)
    requires
        unix_secs + 8 * 3600 <= u64::MAX,
    ensures
        r.name == name,
        r.size == size,
        r.time@ == received_time(unix_secs as nat),
        r.path == path,
        r.exists,
        r.batch == batch,
        r.device == device,
{
    ReceivedFile { name, size, time: received_time_text(unix_secs), path, exists: true, batch, device }
}

/// [`record_received`], or `None` when `unix_secs` is too large to move to
/// UTC+8 in 64 bits.
pub fn record_received_checked(name: String, size: u64, unix_secs: u64, path: String, batch: u64, device: String)
    -> (r: Option<ReceivedFile>)
    ensures
        r is None <==> unix_secs + 8 * 3600 > u64::MAX,
        r matches Some(f) ==> f.name == name && f.size == size && f.time@ == received_time(unix_secs as nat)
            && f.path == path && f.exists && f.batch == batch && f.device == device,
{
    if unix_secs > u64::MAX - 8 * 3600 {
        None
    } else {
        Some(record_received(name, size, unix_secs, path, batch, device))
    }
}

impl ShareStore {
    /// The listed total of a bundle with file ids `fids`, when it fits in 64 bits.
    fn listed_total(&self, fids: &Vec<String>) -> (r: Option<u64>)
        ensures
            r is Some <==> sum_infos(listed_files(self.file_map(), texts(fids@))) <= u64::MAX,
            r matches Some(t) ==> t == sum_infos(listed_files(self.file_map(), texts(fids@))),
    {
        let ghost fm = self.file_map();
        let ghost ks = texts(fids@);
        let mut total: u64 = 0;
        let mut i: usize = 0;
        while i < fids.len()
            invariant
                i <= fids.len(),
                fm == self.file_map(),
                ks == texts(fids@),
                total == sum_infos(listed_files(fm, ks.take(i as int))),
            decreases fids.len() - i,
        {
            assert(ks.take(i + 1).drop_last() =~= ks.take(i as int));
            assert(ks.take(i + 1).last() == fids@[i as int]@);
            let ghost l0 = listed_files(fm, ks.take(i as int));
            match self.files.get(&fids[i]) {
                Some(e) => {
                    assert(l0.push((e.name@, e.size)).drop_last() =~= l0);
                    assert(sum_infos(listed_files(fm, ks.take(i + 1))) == sum_infos(l0) + e.size);
                    if total > u64::MAX - e.size {
                        proof { lemma_listed_prefix(fm, ks, i + 1); }
                        return None;
                    }
                    total = total + e.size;
                },
                None => {},
            }
            i = i + 1;
        }
        assert(ks.take(i as int) =~= ks);
        Some(total)
    }

    /// Whether every bundle's listed total fits in 64 bits.
    pub fn totals_fit_check(&self) -> (r: bool)
        ensures
            r == self.totals_fit(),
    {
        let mut i: usize = 0;
        while i < self.bundles.len()
            invariant
                i <= self.bundles.entries().len(),
                forall|j: int| 0 <= j < i ==> sum_infos(
                    listed_files(self.file_map(), texts(#[trigger] self.bundles.entries()[j].1@)),
                ) <= u64::MAX,
            decreases self.bundles.entries().len() - i,
        {
            if self.listed_total(self.bundles.value_at(i)).is_none() {
                return false;
            }
            i = i + 1;
        }
        true
    }

    /// The share list ([`ShareStore::get_active_shares`]), or `None` when
    /// some bundle's total does not fit in 64 bits.
    pub fn get_active_shares_checked(&self, lan_ip: &str, port: u16) -> (r: Option<Vec<SharedFile>>)
        ensures
            r is None <==> !self.totals_fit(),
            r matches Some(v) ==> v@.map_values(|x: SharedFile| x@) == self.bundles.entries().map_values(
                |e: (String, Vec<String>)| bundle_entry(self.file_map(), e.0@, texts(e.1@), lan_ip@, port),
            ),
    {
        if self.totals_fit_check() {
            Some(self.get_active_shares(lan_ip, port))
        } else {
            None
        }
    }
}

}
