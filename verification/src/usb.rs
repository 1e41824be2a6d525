//! Drives: what the system says is plugged in, and which players read it.
//!
//! The system is asked elsewhere; what it answered arrives here as a
//! [`Disk`] of plain values, and this module decides what each one is.

use vstd::prelude::*;

use crate::device::{DeviceProfile, FileSystem, Support, first_support};
use crate::files::{
    PathKeyed, ascii_lower, ascii_lower_exec, sort_by_path, sorted_by_path,
};
use crate::path::{components, spec_components, spec_starts_with, starts_with};
use crate::text::{push_char, str_eq};

verus! {

/// The players that read a filesystem, and those that do not, each with
/// what its manual says.
#[derive(Debug, Clone)]
pub struct Readers<'a> {
    pub readable: Vec<&'a DeviceProfile>,
    pub unreadable: Vec<(&'a DeviceProfile, Support)>,
}

/// `players` split by whether each reads `fs`, each side in table order.
pub open spec fn spec_readers(players: Seq<DeviceProfile>, fs: FileSystem) -> (Seq<DeviceProfile>, Seq<(DeviceProfile, Support)>)
    decreases players.len(),
{
    if players.len() == 0 {
        (Seq::empty(), Seq::empty())
    } else {
        let (readable, unreadable) = spec_readers(players.drop_last(), fs);
        let player = players.last();
        let support = first_support(player.filesystems@, fs);
        if support == Support::Yes {
            (readable.push(player), unreadable)
        } else {
            (readable, unreadable.push((player, support)))
        }
    }
}

pub open spec fn readable_views<'a>(r: Seq<&'a DeviceProfile>) -> Seq<DeviceProfile> {
    r.map_values(|p: &'a DeviceProfile| *p)
}

pub open spec fn unreadable_views<'a>(r: Seq<(&'a DeviceProfile, Support)>) -> Seq<(DeviceProfile, Support)> {
    r.map_values(|p: (&'a DeviceProfile, Support)| (*p.0, p.1))
}

/// Which of `players` read `fs`. Every player lands on exactly one side.
pub fn readers_of<'a>(fs: FileSystem, players: &'a [DeviceProfile]) -> (split: Readers<'a>)
    ensures
        (readable_views(split.readable@), unreadable_views(split.unreadable@)) == spec_readers(
            players@,
            fs,
        ),
{
    let mut readable: Vec<&'a DeviceProfile> = Vec::new();
    let mut unreadable: Vec<(&'a DeviceProfile, Support)> = Vec::new();
    let n = players.len();
    let mut i: usize = 0;
    while i < n
        invariant
            n == players@.len(),
            i <= n,
            (readable_views(readable@), unreadable_views(unreadable@)) == spec_readers(
                players@.take(i as int),
                fs,
            ),
        decreases n - i,
    {
        proof {
            let t = players@.take(i + 1);
            assert(t.drop_last() =~= players@.take(i as int));
            assert(t.last() == players@[i as int]);
        }
        let player = &players[i];
        let support = player.filesystem_support(fs);
        let ghost r0 = readable_views(readable@);
        let ghost u0 = unreadable_views(unreadable@);
        match support {
            Support::Yes => {
                readable.push(player);
                assert(readable_views(readable@) =~= r0.push(*player));
            },
            other => {
                unreadable.push((player, other));
                assert(unreadable_views(unreadable@) =~= u0.push((*player, other)));
            },
        }
        i += 1;
    }
    assert(players@.take(n as int) =~= players@);
    Readers { readable, unreadable }
}

/// What the system reports of one mounted volume.
#[derive(Debug, Clone, PartialEq, Eq)]
pub struct Disk {
    pub mount_point: String,
    pub name: String,
    /// The filesystem as the system names it.
    pub file_system: String,
    pub removable: bool,
    pub total_bytes: u64,
    pub free_bytes: u64,
}

/// A mounted volume as this program sees it.
#[derive(Debug, Clone, PartialEq, Eq)]
pub struct Drive {
    pub mount_point: String,
    pub name: String,
    /// What the drive is formatted as, when it is a filesystem this program
    /// knows by name.
    pub filesystem: Option<FileSystem>,
    /// The filesystem as the system reported it, kept for the ones not
    /// recognised.
    pub reported_as: String,
    pub total_bytes: u64,
    pub free_bytes: u64,
}

impl PathKeyed for Drive {
    open spec fn path_key(&self) -> Seq<char> {
        self.mount_point@
    }

    fn key_text(&self) -> (key: &str) {
        self.mount_point.as_str()
    }
}

/// `text` with ASCII capitals made lower case.
pub open spec fn ascii_lowercase(text: Seq<char>) -> Seq<char> {
    text.map_values(|c: char| ascii_lower(c))
}

/// The filesystem a system's name for it means, whatever platform named it.
pub open spec fn spec_recognise(reported: Seq<char>) -> Option<FileSystem> {
    let l = ascii_lowercase(reported);
    if l == "exfat"@ {
        Some(FileSystem::ExFat)
    } else if l == "msdos"@ || l == "vfat"@ || l == "fat"@ || l == "fat32"@ {
        Some(FileSystem::Fat32)
    } else if l == "fat16"@ {
        Some(FileSystem::Fat16)
    } else if l == "hfs"@ || l == "hfsplus"@ || l == "hfs+"@ || l == "apple_hfs"@ {
        Some(FileSystem::HfsPlus)
    } else if l == "ntfs"@ || l == "ntfs3"@ {
        Some(FileSystem::Ntfs)
    } else {
        None
    }
}

fn to_ascii_lowercase(text: &str) -> (lower: String)
    ensures
        lower@ == ascii_lowercase(text@),
{
    let n = text.unicode_len();
    let mut lower = String::new();
    let mut i: usize = 0;
    while i < n
        invariant
            n == text@.len(),
            i <= n,
            lower@ == ascii_lowercase(text@.take(i as int)),
        decreases n - i,
    {
        push_char(&mut lower, ascii_lower_exec(text.get_char(i)));
        assert(ascii_lowercase(text@.take(i + 1)) =~= ascii_lowercase(text@.take(i as int)).push(
            ascii_lower(text@[i as int]),
        ));
        i += 1;
    }
    assert(text@.take(n as int) =~= text@);
    lower
}

/// The filesystem a system's name for it means. A filesystem no player
/// reads is not guessed at.
pub fn recognise(reported: &str) -> (fs: Option<FileSystem>)
    ensures
        fs == spec_recognise(reported@),
{
    let lower = to_ascii_lowercase(reported);
    let l = lower.as_str();
    if str_eq(l, "exfat") {
        Some(FileSystem::ExFat)
    } else if str_eq(l, "msdos") || str_eq(l, "vfat") || str_eq(l, "fat") || str_eq(l, "fat32") {
        Some(FileSystem::Fat32)
    } else if str_eq(l, "fat16") {
        Some(FileSystem::Fat16)
    } else if str_eq(l, "hfs") || str_eq(l, "hfsplus") || str_eq(l, "hfs+") || str_eq(
        l,
        "apple_hfs",
    ) {
        Some(FileSystem::HfsPlus)
    } else if str_eq(l, "ntfs") || str_eq(l, "ntfs3") {
        Some(FileSystem::Ntfs)
    } else {
        None
    }
}

pub open spec fn spec_describe(disk: Disk) -> Drive {
    Drive {
        mount_point: disk.mount_point,
        name: disk.name,
        filesystem: spec_recognise(disk.file_system@),
        reported_as: disk.file_system,
        total_bytes: disk.total_bytes,
        free_bytes: disk.free_bytes,
    }
}

/// A disk as a drive: its filesystem recognised, the rest as reported.
pub fn describe(disk: Disk) -> (drive: Drive)
    ensures
        drive == spec_describe(disk),
{
    let filesystem = recognise(disk.file_system.as_str());
    Drive {
        mount_point: disk.mount_point,
        name: disk.name,
        filesystem,
        reported_as: disk.file_system,
        total_bytes: disk.total_bytes,
        free_bytes: disk.free_bytes,
    }
}

/// The removable disks among `disks`, described.
pub open spec fn removable_drives(disks: Seq<Disk>) -> Seq<Drive>
    decreases disks.len(),
{
    if disks.len() == 0 {
        Seq::empty()
    } else {
        let earlier = removable_drives(disks.drop_last());
        if disks.last().removable {
            earlier.push(spec_describe(disks.last()))
        } else {
            earlier
        }
    }
}

/// Every drive that could be carried to a gig: the removable disks, in the
/// order of their mount points, so that asking twice gives the same list.
pub fn drives(disks: Vec<Disk>) -> (found: Vec<Drive>)
    ensures
        found@ == sorted_by_path(removable_drives(disks@)),
{
    let ghost all = disks@;
    let mut rest = disks;
    let mut kept: Vec<Drive> = Vec::new();
    let n = rest.len();
    let mut i: usize = 0;
    while i < n
        invariant
            n == all.len(),
            i <= n,
            rest@ == all.skip(i as int),
            kept@ == removable_drives(all.take(i as int)),
        decreases n - i,
    {
        let disk = rest.remove(0);
        assert(disk == all[i as int]);
        assert(rest@ =~= all.skip(i + 1));
        proof {
            let t = all.take(i + 1);
            assert(t.drop_last() =~= all.take(i as int));
            assert(t.last() == disk);
        }
        if disk.removable {
            let drive = describe(disk);
            kept.push(drive);
        }
        i += 1;
    }
    assert(all.take(n as int) =~= all);
    sort_by_path(kept)
}

/// The index of the disk mounted nearest `path`: among those whose mount
/// point `path` lies under, the one whose mount point is longest, the last
/// of them on a tie.
pub open spec fn mounted_at(disks: Seq<Disk>, path: Seq<char>) -> Option<int>
    decreases disks.len(),
{
    if disks.len() == 0 {
        None
    } else {
        let earlier = mounted_at(disks.drop_last(), path);
        let last = disks.len() - 1;
        if spec_starts_with(spec_components(path), spec_components(disks[last].mount_point@)) {
            match earlier {
                Some(e) => if disks[e].mount_point@.len() > disks[last].mount_point@.len() {
                    Some(e)
                } else {
                    Some(last)
                },
                None => Some(last),
            }
        } else {
            earlier
        }
    }
}

proof fn lemma_mounted_at_bounds(disks: Seq<Disk>, path: Seq<char>)
    ensures
        mounted_at(disks, path) matches Some(i) ==> 0 <= i < disks.len(),
    decreases disks.len(),
{
    if disks.len() > 0 {
        lemma_mounted_at_bounds(disks.drop_last(), path);
    }
}

/// The drive `path` is on, given where it really is: the disk mounted
/// deepest above it. None when no disk holds it.
pub fn drive_at(path: &str, disks: Vec<Disk>) -> (drive: Option<Drive>)
    ensures
        match mounted_at(disks@, path@) {
            Some(i) => drive == Some(spec_describe(disks@[i])),
            None => drive is None,
        },
{
    let target = components(path);
    let n = disks.len();
    let mut best: Option<usize> = None;
    let mut best_len: usize = 0;
    let mut i: usize = 0;
    while i < n
        invariant
            n == disks@.len(),
            i <= n,
            crate::text::views(target@) == spec_components(path@),
            best == match mounted_at(disks@.take(i as int), path@) {
                Some(j) => Some(j as usize),
                None => None::<usize>,
            },
            best matches Some(j) ==> j < i && best_len == disks@[j as int].mount_point@.len(),
        decreases n - i,
    {
        proof {
            let t = disks@.take(i + 1);
            assert(t.drop_last() =~= disks@.take(i as int));
            assert(t[i as int] == disks@[i as int]);
            lemma_mounted_at_bounds(disks@.take(i as int), path@);
            if let Some(j) = best {
                assert(t[j as int] == disks@[j as int]);
            }
        }
        let mount = components(disks[i].mount_point.as_str());
        if starts_with(&target, &mount) {
            let len = disks[i].mount_point.unicode_len();
            let replace = match best {
                Some(_) => !(best_len > len),
                None => true,
            };
            if replace {
                best = Some(i);
                best_len = len;
            }
        }
        i += 1;
    }
    assert(disks@.take(n as int) =~= disks@);
    proof {
        lemma_mounted_at_bounds(disks@, path@);
    }
    match best {
        Some(j) => {
            let mut disks = disks;
            let disk = disks.remove(j);
            Some(describe(disk))
        },
        None => None,
    }
}

/// `path` without the `\\?\` that Windows puts before a path it has
/// resolved, which no person would type and no mount point carries.
pub fn without_verbatim_prefix(path: &str) -> (plain: String)
    ensures
        plain@ == if path@.len() >= 4 && path@.take(4) == "\\\\?\\"@ {
            path@.skip(4)
        } else {
            path@
        },
{
    let n = path.unicode_len();
    proof {
        reveal_strlit("\\\\?\\");
    }
    if n >= 4 && path.get_char(0) == '\\' && path.get_char(1) == '\\' && path.get_char(2) == '?'
        && path.get_char(3) == '\\' {
        assert(path@.take(4) =~= "\\\\?\\"@);
        path.substring_char(4, n).to_owned()
    } else {
        proof {
            if n >= 4 {
                assert(path@.take(4)[0] == path@[0]);
                assert(path@.take(4)[1] == path@[1]);
                assert(path@.take(4)[2] == path@[2]);
                assert(path@.take(4)[3] == path@[3]);
            }
        }
        path.to_owned()
    }
}


/// Every player lands on exactly one side: those that read the filesystem,
/// and those that do not, each with what its manual says.
pub proof fn every_player_lands_on_one_side(players: Seq<DeviceProfile>, fs: FileSystem)
    ensures
        spec_readers(players, fs).0.len() + spec_readers(players, fs).1.len() == players.len(),
        forall|i: int|
            0 <= i < spec_readers(players, fs).0.len() ==> first_support(
                (#[trigger] spec_readers(players, fs).0[i]).filesystems@,
                fs,
            ) == Support::Yes,
        forall|i: int|
            0 <= i < spec_readers(players, fs).1.len() ==> {
                let (p, s) = #[trigger] spec_readers(players, fs).1[i];
                s != Support::Yes && s == first_support(p.filesystems@, fs)
            },
    decreases players.len(),
{
    if players.len() > 0 {
        every_player_lands_on_one_side(players.drop_last(), fs);
    }
}

/// A filesystem's name is recognised whatever the case of its letters.
pub proof fn the_case_of_a_filesystem_name_does_not_matter(a: Seq<char>, b: Seq<char>)
    requires
        crate::files::same_ignoring_ascii_case(a, b),
    ensures
        spec_recognise(a) == spec_recognise(b),
{
    assert(ascii_lowercase(a) =~= ascii_lowercase(b));
}


/// What each platform calls each filesystem a player may meet: macOS names
/// every FAT `msdos` and Linux `vfat`; HFS+ goes by four names.
pub open spec fn platform_names() -> Seq<(Seq<char>, FileSystem)> {
    seq![
        ("exfat"@, FileSystem::ExFat),
        ("msdos"@, FileSystem::Fat32),
        ("vfat"@, FileSystem::Fat32),
        ("fat"@, FileSystem::Fat32),
        ("fat32"@, FileSystem::Fat32),
        ("fat16"@, FileSystem::Fat16),
        ("hfs"@, FileSystem::HfsPlus),
        ("hfsplus"@, FileSystem::HfsPlus),
        ("hfs+"@, FileSystem::HfsPlus),
        ("apple_hfs"@, FileSystem::HfsPlus),
        ("ntfs"@, FileSystem::Ntfs),
        ("ntfs3"@, FileSystem::Ntfs),
    ]
}

/// Every name a platform uses for a filesystem is recognised as that
/// filesystem's family, and no other name is recognised at all.
pub proof fn each_platform_name_means_its_family(reported: Seq<char>)
    ensures
        forall|i: int|
            0 <= i < platform_names().len() ==> spec_recognise(#[trigger] platform_names()[i].0)
                == Some(platform_names()[i].1),
        spec_recognise(reported) matches Some(fs) ==> exists|i: int|
            0 <= i < platform_names().len() && ascii_lowercase(reported)
                == #[trigger] platform_names()[i].0 && platform_names()[i].1 == fs,
{
    reveal_strlit("exfat");
    reveal_strlit("msdos");
    reveal_strlit("vfat");
    reveal_strlit("fat");
    reveal_strlit("fat32");
    reveal_strlit("fat16");
    reveal_strlit("hfs");
    reveal_strlit("hfsplus");
    reveal_strlit("hfs+");
    reveal_strlit("apple_hfs");
    reveal_strlit("ntfs");
    reveal_strlit("ntfs3");
    let names = platform_names();
    assert forall|i: int| 0 <= i < names.len() implies spec_recognise(#[trigger] names[i].0)
        == Some(names[i].1) by {
        let n = names[i].0;
        assert(ascii_lowercase(n) =~= n);
        assert(("exfat"@)[0] != ("msdos"@)[0]);
        assert(("fat32"@)[0] != ("msdos"@)[0] && ("fat32"@)[0] != ("exfat"@)[0]);
        assert(("fat16"@)[0] != ("msdos"@)[0] && ("fat16"@)[0] != ("exfat"@)[0]);
        assert(("fat16"@)[3] != ("fat32"@)[3]);
        assert(("ntfs3"@)[0] != ("msdos"@)[0] && ("ntfs3"@)[0] != ("exfat"@)[0]);
        assert(("ntfs3"@)[0] != ("fat32"@)[0] && ("ntfs3"@)[0] != ("fat16"@)[0]);
        assert(("hfs+"@)[0] != ("vfat"@)[0] && ("ntfs"@)[0] != ("vfat"@)[0]);
        assert(("ntfs"@)[0] != ("hfs+"@)[0]);
        assert(("hfs"@)[0] != ("fat"@)[0]);
    }
    if spec_recognise(reported) is Some {
        let l = ascii_lowercase(reported);
        if l == "exfat"@ {
            assert(l == names[0].0);
        } else if l == "msdos"@ {
            assert(l == names[1].0);
        } else if l == "vfat"@ {
            assert(l == names[2].0);
        } else if l == "fat"@ {
            assert(l == names[3].0);
        } else if l == "fat32"@ {
            assert(l == names[4].0);
        } else if l == "fat16"@ {
            assert(l == names[5].0);
        } else if l == "hfs"@ {
            assert(l == names[6].0);
        } else if l == "hfsplus"@ {
            assert(l == names[7].0);
        } else if l == "hfs+"@ {
            assert(l == names[8].0);
        } else if l == "apple_hfs"@ {
            assert(l == names[9].0);
        } else if l == "ntfs"@ {
            assert(l == names[10].0);
        } else {
            assert(l == names[11].0);
        }
    }
}

} // verus!
