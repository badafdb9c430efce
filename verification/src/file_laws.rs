use vstd::prelude::*;

use crate::file_manager::{path_of, FileView, OpenFileView};
use crate::listing::fork_hash;
use crate::memory_laws::{lemma_signed, signed};
use crate::resource::{be16, be32, fork_resources, reference, references, type_count, typed_resources, ResourceView};
use crate::standard_file::{ResponseView, StandardFileError};
use crate::text::{base_name, file_name, hex, hex_digit, is_normal, joined, last_part, normal_path, parent_path};
use crate::trace_range::{all_digits, digit_value, number, spelled};
use crate::trap::DispView;
use crate::vfs::{dir_at, dir_numbered, DirView, SnapshotView, VfsView};

verus! {

/// The type list of a resource fork: behind its map's start, as far as the map says.
pub open spec fn type_list(s: Seq<u8>) -> int {
    be32(s, 4) + be16(s, be32(s, 4) + 24)
}

/// A resource fork that can be read holds, for each type of its type list and each of the
/// type's references, the resource that the reference leads to: the number that stands
/// there, and the bytes behind the size at the place in the data.
pub proof fn lemma_resource_is_read(s: Seq<u8>, rs: Seq<ResourceView>, i: int, j: int)
    requires
        fork_resources(s) == Some(rs),
        be16(s, type_list(s)) != 0xFFFF,
        0 <= i <= be16(s, type_list(s)),
        0 <= j <= be16(s, type_list(s) + 2 + 8 * i + 4),
    ensures
        ({
            let kind = type_list(s) + 2 + 8 * i;
            let at = type_list(s) + be16(s, kind + 6) + 12 * j;
            let from = be32(s, 0) + s[at + 5] * 0x1_0000 + s[at + 6] * 0x100 + s[at + 7];
            exists|k: int|
                {
                    &&& 0 <= k < rs.len()
                    &&& (#[trigger] rs[k]).res_type == be32(s, kind)
                    &&& rs[k].id == signed(be16(s, at))
                    &&& rs[k].data.len() == be32(s, from)
                    &&& rs[k].data == s.subrange(from + 4, from + 4 + be32(s, from))
                }
        }),
{
    let list = type_list(s);
    let n = type_count(s, list);
    lemma_typed(s, be32(s, 0) as int, list, n, i, j);
    let kind = list + 2 + 8 * i;
    let at = list + be16(s, kind + 6) + 12 * j;
    let r = reference(s, be32(s, 0) as int, be32(s, kind), at);
    let k = choose|k: int| 0 <= k < rs.len() && Some(#[trigger] rs[k]) == r;
    lemma_signed(be16(s, at));
    assert(rs[k].res_type == be32(s, kind));
}

proof fn lemma_typed(s: Seq<u8>, data: int, list: int, n: nat, i: int, j: int)
    requires
        typed_resources(s, data, list, n) is Some,
        0 <= i < n,
        0 <= j <= be16(s, list + 2 + 8 * i + 4),
    ensures
        ({
            let rs = typed_resources(s, data, list, n)->0;
            let kind = list + 2 + 8 * i;
            let r = reference(s, data, be32(s, kind), list + be16(s, kind + 6) + 12 * j);
            exists|k: int| 0 <= k < rs.len() && Some(#[trigger] rs[k]) == r
        }),
    decreases n,
{
    let before = typed_resources(s, data, list, (n - 1) as nat)->0;
    let rs = typed_resources(s, data, list, n)->0;
    let at = list + 2 + 8 * (n - 1);
    let count = (be16(s, at + 4) + 1) as nat;
    let more = references(s, data, be32(s, at), list + be16(s, at + 6), count)->0;
    let kind = list + 2 + 8 * i;
    let r = reference(s, data, be32(s, kind), list + be16(s, kind + 6) + 12 * j);
    if i < n - 1 {
        lemma_typed(s, data, list, (n - 1) as nat, i, j);
        let k = choose|k: int| 0 <= k < before.len() && Some(#[trigger] before[k]) == r;
        assert(Some(rs[k]) == r);
    } else {
        lemma_references(s, data, be32(s, at), list + be16(s, at + 6), count, j);
        assert(rs[before.len() + j] == more[j]);
        assert(Some(rs[before.len() + j]) == r);
    }
}

proof fn lemma_references(s: Seq<u8>, data: int, res_type: u32, at: int, n: nat, j: int)
    requires
        references(s, data, res_type, at, n) is Some,
        0 <= j < n,
    ensures
        references(s, data, res_type, at, n)->0.len() == n,
        Some(references(s, data, res_type, at, n)->0[j]) == reference(s, data, res_type, at + 12 * j),
    decreases n,
{
    if n > 1 {
        lemma_references(s, data, res_type, at, (n - 1) as nat, if j < n - 1 { j } else { 0 });
    } else {
        assert(references(s, data, res_type, at, 0) == Some(Seq::<ResourceView>::empty()));
    }
}

/// Sixteen to some power.
pub open spec fn sixteen_to(n: nat) -> nat
    decreases n,
{
    if n == 0 {
        1
    } else {
        16 * sixteen_to((n - 1) as nat)
    }
}

/// What is written in hexadecimal spells the number again, as long as the digits suffice.
pub proof fn lemma_hexadecimal_reads_back(n: nat, digits: nat)
    requires
        n < sixteen_to(digits),
    ensures
        hex(n, digits).len() == digits,
        all_digits(hex(n, digits), 16),
        spelled(hex(n, digits), 16) == n,
    decreases digits,
{
    if digits > 0 {
        assert(n / 16 < sixteen_to((digits - 1) as nat)) by (nonlinear_arith)
            requires
                n < 16 * sixteen_to((digits - 1) as nat),
        ;
        lemma_hexadecimal_reads_back(n / 16, (digits - 1) as nat);
        let head = hex(n / 16, (digits - 1) as nat);
        let s = hex(n, digits);
        let d = (n % 16) as u32;
        assert(digit_value(hex_digit(d)) == d);
        assert(s.drop_last() =~= head);
        assert forall|i: int| 0 <= i < s.len() implies digit_value(#[trigger] s[i]) < 16 by {
            if i < head.len() {
                assert(s[i] == head[i]);
            }
        }
    }
}

/// A number of 32 bits in eight hexadecimal digits is read as that number.
pub proof fn lemma_address_reads_back(n: u32)
    ensures
        number(hex(n as nat, 8), 16) == Some(n),
{
    assert(sixteen_to(8) == 0x1_0000_0000) by {
        reveal_with_fuel(sixteen_to, 9);
    }
    lemma_hexadecimal_reads_back(n as nat, 8);
    let s = hex(n as nat, 8);
    if s[0] == '+' {
        assert(digit_value(s[0]) < 16);
    }
}

/// The hash of a fork without bytes is the start value; one more byte is combined with it
/// bit by bit, and the result multiplied by the factor modulo two to the 64th.
pub proof fn lemma_hash_takes_byte_after_byte(bytes: Seq<u8>, b: u8)
    ensures
        fork_hash(Seq::empty(), 0) == 0xcbf2_9ce4_8422_2325,
        fork_hash(bytes.push(b), bytes.len() + 1) == ((fork_hash(bytes, bytes.len()) ^ (b as u64)) * 0x100_0000_01b3)
            % 0x1_0000_0000_0000_0000,
{
    lemma_hash_of_longer(bytes, b, bytes.len());
    let h = (fork_hash(bytes, bytes.len()) ^ (b as u64)) as u64;
    assert(h.wrapping_mul(0x100_0000_01b3u64) == (h * 0x100_0000_01b3) % 0x1_0000_0000_0000_0000);
}

proof fn lemma_hash_of_longer(bytes: Seq<u8>, b: u8, n: nat)
    requires
        n <= bytes.len(),
    ensures
        fork_hash(bytes.push(b), n) == fork_hash(bytes, n),
    decreases n,
{
    if n > 0 {
        lemma_hash_of_longer(bytes, b, (n - 1) as nat);
    }
}

/// The folders of a volume have numbers of their own, below the next one that is given.
pub open spec fn folders_numbered(v: VfsView) -> bool {
    &&& forall|i: int| 0 <= i < v.directories.len() ==> 2 < (#[trigger] v.directories[i]).id < v.next_dir_id
    &&& forall|i: int, j: int|
        0 <= i < j < v.directories.len() ==> (#[trigger] v.directories[i]).id != (#[trigger] v.directories[j]).id
    &&& v.next_dir_id > 2
}

/// The number of a folder leads back to its path, for folders that were there and for
/// those that are made; those that were there keep theirs.
pub proof fn lemma_folder_number_leads_back(v: VfsView, path: Seq<char>)
    requires
        folders_numbered(v),
        v.next_dir_id + path.len() < u32::MAX,
    ensures
        ({
            let (w, id) = v.with_dir(path);
            &&& w.dir_path(id) == Some(path)
            &&& w.with_dir(path) == (w, id)
            &&& folders_numbered(w)
            &&& v.directories.is_prefix_of(w.directories)
            &&& w.next_dir_id <= v.next_dir_id + path.len()
            &&& path.len() == 0 ==> id == 2
        }),
    decreases path.len(),
{
    if path.len() > 0 {
        crate::text::lemma_last_part(path, path.len());
        lemma_dir_found(v.directories, path, 0);
        match dir_at(v.directories, path, 0) {
            Some(i) => {
                lemma_dir_numbered(v.directories, i, 0);
            },
            None => {
                let parent = parent_path(path);
                lemma_folder_number_leads_back(v, parent);
                let (s, up) = v.with_dir(parent);
                let (w, id) = v.with_dir(path);
                let last = s.directories.len() as int;
                assert(w.directories[last] == DirView { id: s.next_dir_id, parent: up, path });
                lemma_dir_numbered(w.directories, last, 0);
                lemma_dir_found(w.directories, path, 0);
                let k = dir_at(w.directories, path, 0)->0;
                lemma_unmade(v, path);
                assert(k == last) by {
                    if k < last {
                        assert(s.directories[k].path == path);
                        lemma_made_above(v, parent, k);
                    }
                }
            },
        }
    }
}

proof fn lemma_unmade(v: VfsView, path: Seq<char>)
    requires
        dir_at(v.directories, path, 0) is None,
    ensures
        forall|i: int| 0 <= i < v.directories.len() ==> (#[trigger] v.directories[i]).path != path,
{
    lemma_dir_found(v.directories, path, 0);
}

/// A folder that is made on the way is no longer than the way.
proof fn lemma_made_above(v: VfsView, path: Seq<char>, k: int)
    requires
        0 <= k < v.with_dir(path).0.directories.len(),
    ensures
        k >= v.directories.len() ==> v.with_dir(path).0.directories[k].path.len() <= path.len(),
        k < v.directories.len() ==> v.with_dir(path).0.directories[k] == v.directories[k],
    decreases path.len(),
{
    if path.len() > 0 && dir_at(v.directories, path, 0) is None {
        crate::text::lemma_last_part(path, path.len());
        let s = v.with_dir(parent_path(path)).0;
        if k < s.directories.len() {
            lemma_made_above(v, parent_path(path), k);
        }
        lemma_never_fewer(v, parent_path(path));
    }
}

proof fn lemma_never_fewer(v: VfsView, path: Seq<char>)
    ensures
        v.with_dir(path).0.directories.len() >= v.directories.len(),
    decreases path.len(),
{
    if path.len() > 0 && dir_at(v.directories, path, 0) is None {
        crate::text::lemma_last_part(path, path.len());
        lemma_never_fewer(v, parent_path(path));
    }
}

proof fn lemma_dir_found(dirs: Seq<DirView>, path: Seq<char>, from: int)
    requires
        0 <= from,
    ensures
        match dir_at(dirs, path, from) {
            Some(i) => from <= i < dirs.len() && dirs[i].path == path,
            None => forall|i: int| from <= i < dirs.len() ==> (#[trigger] dirs[i]).path != path,
        },
        (exists|i: int| from <= i < dirs.len() && (#[trigger] dirs[i]).path == path) ==> dir_at(dirs, path, from) is Some,
    decreases dirs.len() - from,
{
    if from < dirs.len() {
        lemma_dir_found(dirs, path, from + 1);
    }
}

proof fn lemma_dir_numbered(dirs: Seq<DirView>, i: int, from: int)
    requires
        0 <= from <= i < dirs.len(),
        forall|j: int, k: int| 0 <= j < k < dirs.len() ==> (#[trigger] dirs[j]).id != (#[trigger] dirs[k]).id,
    ensures
        dir_numbered(dirs, dirs[i].id, from) == Some(i),
    decreases i - from,
{
    if from < i {
        lemma_dir_numbered(dirs, i, from + 1);
    }
}

/// A path in normal form is its folder's path and its last part, joined; the last part has
/// no separator.
pub proof fn lemma_path_is_folder_and_name(p: Seq<char>, i: int)
    requires
        is_normal(p),
        p.len() > 0,
    ensures
        joined(parent_path(p), base_name(p)) == p,
        base_name(p).len() > 0,
        0 <= i < base_name(p).len() ==> base_name(p)[i] != '/' && base_name(p)[i] != ':',
{
    lemma_behind_separator(p, p.len());
    let k = last_part(p, p.len());
    if k > 0 {
        assert(p[k - 1] == '/');
        assert(p.take(k - 1).push('/') + p.skip(k) =~= p);
    } else {
        assert(p.skip(0) =~= p);
    }
}

proof fn lemma_behind_separator(p: Seq<char>, n: nat)
    requires
        n <= p.len(),
    ensures
        0 <= last_part(p, n) <= n,
        last_part(p, n) > 0 ==> p[last_part(p, n) - 1] == '/' || p[last_part(p, n) - 1] == ':',
        forall|i: int| last_part(p, n) <= i < n ==> p[i] != '/' && p[i] != ':',
    decreases n,
{
    if n > 0 {
        lemma_behind_separator(p, (n - 1) as nat);
    }
}

/// A name from the host is kept where the Macintosh can have it: the first 63 characters,
/// a separator as a hyphen, a character of another set as a question mark.
pub proof fn lemma_file_name_keeps_characters(s: Seq<char>, i: int)
    requires
        0 <= i < s.len(),
        i < 63,
    ensures
        file_name(s).len() == if s.len() < 63 { s.len() as int } else { 63 },
        s[i] == '/' || s[i] == ':' ==> file_name(s)[i] == '-',
        (s[i] as u32) < 128 && s[i] != '/' && s[i] != ':' ==> file_name(s)[i] == s[i],
        file_name(s)[i] == s[i] || file_name(s)[i] == '-' || file_name(s)[i] == '?',
{
}

/// A file that is put beside the application goes below the application's own folder,
/// under its own name; a path that leads upward or nowhere is refused.
pub proof fn lemma_mounted_file_stays_below(d: DispView, dir: Seq<char>, file: Seq<char>)
    ensures
        match d.mount_target(dir, file) {
            Ok(p) => {
                &&& d.launched_app_path matches Some(app) && {
                    let folder = parent_path(app);
                    &&& folder.len() > 0
                    &&& p == folder.push('/') + (normal_path(dir).push('/') + base_name(normal_path(file)))
                }
                &&& normal_path(dir).len() > 0
                &&& base_name(normal_path(file)).len() > 0
                &&& forall|i: int|
                    0 <= i < normal_path(dir).len() - 1 && #[trigger] normal_path(dir)[i] == '.' ==> normal_path(dir)[i + 1]
                        != '.'
            },
            Err(e) => {
                &&& e is NoLaunchedApp <==> d.launched_app_path is None
                &&& e is NoParentFolder ==> (d.launched_app_path matches Some(app) && parent_path(app).len() == 0)
                &&& e is NoFileName ==> base_name(normal_path(file)).len() == 0
            },
        },
{
    if let Ok(p) = d.mount_target(dir, file) {
        let app = d.launched_app_path->0;
        let folder = parent_path(app);
        let n = normal_path(dir);
        let name = base_name(normal_path(file));
        assert(joined(joined(folder, n), name) =~= folder.push('/') + (n.push('/') + name));
    }
}

/// A reference number stands for the fork that was opened under it last.
pub proof fn lemma_reference_number_of_last_opened(files: Seq<OpenFileView>, i: int, n: nat)
    requires
        0 <= i < n <= files.len(),
        forall|j: int| i < j < n ==> (#[trigger] files[j]).refnum != files[i].refnum,
    ensures
        path_of(files, files[i].refnum, n) == Some(files[i].path),
    decreases n,
{
    if i < n - 1 {
        lemma_reference_number_of_last_opened(files, i, (n - 1) as nat);
    }
}

/// The catalog shows of a folder each folder that has it for its parent, under the last
/// part of its path.
pub proof fn lemma_catalog_shows_folders(v: VfsView, id: u32, n: nat, i: int)
    requires
        0 <= i < n <= v.directories.len(),
        v.directories[i].parent == id,
    ensures
        exists|k: int|
            {
                &&& 0 <= k < v.folders_in(id, n).len()
                &&& (#[trigger] v.folders_in(id, n)[k]).is_directory
                &&& v.folders_in(id, n)[k].name == base_name(v.directories[i].path)
            },
    decreases n,
{
    let before = v.folders_in(id, (n - 1) as nat);
    let all = v.folders_in(id, n);
    if i < n - 1 {
        lemma_catalog_shows_folders(v, id, (n - 1) as nat, i);
        let k = choose|k: int|
            0 <= k < before.len() && (#[trigger] before[k]).is_directory && before[k].name == base_name(
                v.directories[i].path,
            );
        assert(all[k] == before[k]);
    } else {
        assert(all[before.len() as int].is_directory);
    }
}

/// The file that the host chose is opened exactly when a dialog of the host asks for one,
/// takes files of its type, the file has a name and the folder is there; the guest finds it
/// there under that name, and each refusal tells the first of these that was missing.
pub proof fn lemma_chosen_file(f: FileView, file: SnapshotView)
    requires
        f.standard_file.get_tracking is Some,
        f.standard_file.get_tracking->0.native,
    ensures
        ({
            let t = f.standard_file.get_tracking->0;
            let (g, r) = f.opened(file);
            let taken = t.allowed_file_types is None || t.allowed_file_types->0.contains(file.file_type);
            let name = file_name(base_name(file.path));
            &&& r is Ok <==> taken && name.len() > 0 && f.vfs.dir_path(t.dir_id) is Some
            &&& r matches Ok(path) ==> {
                &&& path == joined(f.vfs.dir_path(t.dir_id)->0, name)
                &&& g.standard_file.response == Some(ResponseView::Open { name })
            }
            &&& r matches Err(e) ==> {
                &&& g == f
                &&& !taken ==> e == StandardFileError::TypeNotAccepted(file.file_type)
                &&& taken && name.len() == 0 ==> e is NoFileName
                &&& taken && name.len() > 0 ==> e == StandardFileError::DirectoryNotMounted(t.dir_id)
            }
        }),
{
}

/// The name that the host chose to save under is answered to the guest, and the file goes
/// into the folder that the guest looks at; nothing is written yet.
pub proof fn lemma_chosen_name(f: FileView, chosen: Seq<char>)
    requires
        f.standard_file.put_tracking is Some,
        f.standard_file.put_tracking->0.native,
    ensures
        ({
            let t = f.standard_file.put_tracking->0;
            let (g, r) = f.saved_as(chosen);
            let name = file_name(chosen);
            &&& r is Ok <==> chosen.len() > 0 && f.vfs.dir_path(t.dir_id) is Some
            &&& r matches Ok(path) ==> {
                &&& path == joined(f.vfs.dir_path(t.dir_id)->0, name)
                &&& g.standard_file.response == Some(ResponseView::Save { name })
            }
            &&& g.vfs == f.vfs
            &&& r is Err ==> g == f
        }),
{
}

/// Without a dialog of the host nothing can be chosen.
pub proof fn lemma_nothing_to_choose(f: FileView, file: SnapshotView, chosen: Seq<char>)
    ensures
        f.standard_file.get_tracking is None || !f.standard_file.get_tracking->0.native ==> f.opened(file) == (
            f,
            Err::<Seq<char>, StandardFileError>(StandardFileError::NoDialog),
        ),
        f.standard_file.put_tracking is None || !f.standard_file.put_tracking->0.native ==> f.saved_as(chosen) == (
            f,
            Err::<Seq<char>, StandardFileError>(StandardFileError::NoDialog),
        ),
{
}

} // verus!
