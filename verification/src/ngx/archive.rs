//! Streamline archives.

use crate::ngx::error::{DownloadError, DownloadErrorModel};
use crate::ngx::offer::text_in;
use crate::order::{lemma_text_lt_irreflexive, lemma_text_lt_total, lemma_text_lt_transitive};
use crate::order::{text_before, text_lt};
use crate::text::{chars_of, copy_text, ends_with, join, join_spec, lower_spec, text_of};
use crate::text::{to_lower, views};
use vstd::prelude::*;
use vstd::slice::slice_subrange;

verus! {

/// What the listing of an archive gives for a member: its name, or why it cannot be read.
pub open spec fn member_model(m: Result<String, String>) -> Result<Seq<char>, Seq<char>> {
    match m {
        Ok(name) => Ok(name@),
        Err(e) => Err(e@),
    }
}

/// What the listing of an archive gives.
pub open spec fn member_models(v: Seq<Result<String, String>>) -> Seq<
    Result<Seq<char>, Seq<char>>,
> {
    v.map_values(|m: Result<String, String>| member_model(m))
}

/// What `zip` lists in an archive: for each member its name, or why it
/// cannot be read; or why the bytes are no archive.
pub uninterp spec fn zip_members(archive: Seq<u8>) -> Result<
    Seq<Result<Seq<char>, Seq<char>>>,
    Seq<char>,
>;

/// What `zip` reads in a member of an archive: its content, or why it cannot be read.
pub uninterp spec fn zip_content(archive: Seq<u8>, index: int) -> Result<Seq<u8>, Seq<char>>;

/// `zip::ZipArchive::new` on the bytes, then for each index below `len` the
/// `name` of the file that `by_index` gives, or its error. The result is a
/// function of the bytes alone. Errors come as text, as `anyhow` writes them with
/// their causes.
#[verifier::external_body]
fn list_archive(archive: &[u8]) -> (r: Result<Vec<Result<String, String>>, String>)
    ensures
        match r {
            Ok(v) => zip_members(archive@) == Ok::<Seq<Result<Seq<char>, Seq<char>>>, Seq<char>>(
                member_models(v@),
            ),
            Err(e) => zip_members(archive@) == Err::<Seq<Result<Seq<char>, Seq<char>>>, Seq<char>>(
                e@,
            ),
        },
{
    let mut arch = zip::ZipArchive::new(std::io::Cursor::new(archive)).map_err(
        |e| format!("{:#}", anyhow::Error::from(e)),
    )?;
    let mut out = Vec::new();
    for i in 0..arch.len() {
        let name = arch.by_index(i).map(|f| f.name().to_string());
        out.push(name.map_err(|e| format!("{:#}", anyhow::Error::from(e))));
    }
    Ok(out)
}

/// What copying a member gives: the bytes that were copied, and why it ended
/// before the whole member was copied, if it did.
pub open spec fn copy_model(c: (Vec<u8>, Option<String>)) -> (Seq<u8>, Option<Seq<char>>) {
    (c.0@, text_in(c.1))
}

/// A copy of a member that reads as `content`: all of it, or what was copied
/// before the failure.
pub open spec fn copy_of(
    content: Result<Seq<u8>, Seq<char>>,
    copy: (Seq<u8>, Option<Seq<char>>),
) -> bool {
    match content {
        Ok(data) => copy.0 == data && copy.1 is None,
        Err(e) => copy.1 == Some(e),
    }
}

/// `zip::ZipArchive::new` on the bytes, then `std::io::copy` of the file that
/// `by_index` finds. Where that succeeds, what was copied is a function of the
/// bytes and the index alone, and where it fails, the error is, which comes as
/// text, as `anyhow` writes it with its causes. How many bytes are copied before
/// a failure is not said: it rests on the size of the buffer of `std::io::copy`.
#[verifier::external_body]
fn copy_member(archive: &[u8], index: usize) -> (r: (Vec<u8>, Option<String>))
    ensures
        copy_of(zip_content(archive@, index as int), copy_model(r)),
{
    let mut out = Vec::new();
    let mut arch = match zip::ZipArchive::new(std::io::Cursor::new(archive)) {
        Ok(a) => a,
        Err(e) => return (out, Some(format!("{:#}", anyhow::Error::from(e)))),
    };
    let mut file = match arch.by_index(index) {
        Ok(f) => f,
        Err(e) => return (out, Some(format!("{:#}", anyhow::Error::from(e)))),
    };
    let sink: &mut dyn std::io::Write = &mut out;
    let copied = std::io::copy(&mut file, sink);
    (out, copied.err().map(|e| format!("{:#}", anyhow::Error::from(e))))
}

// ---------------------------------------------------------------------------
// Which members are installed
// ---------------------------------------------------------------------------

/// What stands behind the last `/` or `\`.
pub open spec fn base_name(name: Seq<char>) -> Seq<char>
    decreases name.len(),
{
    if name.len() == 0 || name.last() == '/' || name.last() == '\\' {
        seq![]
    } else {
        base_name(name.drop_last()).push(name.last())
    }
}

/// The file that a member is installed as: directories are not, nor is
/// anything but DLLs.
pub open spec fn target_of(name: Seq<char>) -> Option<Seq<char>> {
    if "/"@.is_suffix_of(name) || !".dll"@.is_suffix_of(lower_spec(base_name(name))) {
        None
    } else {
        Some(base_name(name))
    }
}

/// `s` behind position `i` is the base name, if a separator stands before it
/// and none behind.
proof fn lemma_base_name(s: Seq<char>, i: int)
    requires
        0 <= i <= s.len(),
        i == 0 || s[i - 1] == '/' || s[i - 1] == '\\',
        forall|j: int| i <= j < s.len() ==> s[j] != '/' && s[j] != '\\',
    ensures
        base_name(s) == s.skip(i),
    decreases s.len(),
{
    if i < s.len() {
        assert forall|j: int| i <= j < s.len() - 1 implies s.drop_last()[j] != '/'
            && s.drop_last()[j] != '\\' by {
            assert(s.drop_last()[j] == s[j]);
        }
        lemma_base_name(s.drop_last(), i);
        assert(s.last() == s[s.len() - 1]);
        assert(s.drop_last().skip(i).push(s.last()) =~= s.skip(i));
    } else {
        assert(s.skip(i) =~= seq![]);
    }
}

/// The file that a member is installed as.
pub fn member_target(name: &str) -> (r: Option<String>)
    ensures
        match r {
            Some(t) => target_of(name@) == Some(t@),
            None => target_of(name@) is None,
        },
{
    let cs = chars_of(name);
    let slash = chars_of("/");
    if ends_with(cs.as_slice(), slash.as_slice()) {
        return None;
    }
    let mut i: usize = cs.len();
    while i > 0 && cs[i - 1] != '/' && cs[i - 1] != '\\'
        invariant
            i <= cs@.len(),
            forall|j: int| i <= j < cs@.len() ==> cs@[j] != '/' && cs@[j] != '\\',
        decreases i,
    {
        i = i - 1;
    }
    proof {
        lemma_base_name(cs@, i as int);
    }
    let base = slice_subrange(cs.as_slice(), i, cs.len());
    assert(base@ =~= name@.skip(i as int));
    let low = chars_of(to_lower(base).as_str());
    let dll = chars_of(".dll");
    if ends_with(low.as_slice(), dll.as_slice()) {
        Some(text_of(base))
    } else {
        None
    }
}

/// The members to install: each by its position, with its file name, up to
/// the first member that cannot be read.
pub open spec fn wanted_from(members: Seq<Result<Seq<char>, Seq<char>>>, i: int) -> Seq<
    (int, Seq<char>),
>
    decreases members.len() - i,
{
    if i >= members.len() {
        seq![]
    } else {
        match members[i] {
            Ok(name) => match target_of(name) {
                Some(t) => seq![(i, t)] + wanted_from(members, i + 1),
                None => wanted_from(members, i + 1),
            },
            Err(e) => seq![],
        }
    }
}

/// Why the first member that cannot be read cannot be read.
pub open spec fn broken_from(members: Seq<Result<Seq<char>, Seq<char>>>, i: int) -> Option<
    Seq<char>,
>
    decreases members.len() - i,
{
    if i >= members.len() {
        None
    } else {
        match members[i] {
            Ok(name) => broken_from(members, i + 1),
            Err(e) => Some(e),
        }
    }
}

/// The members of an archive to install.
#[derive(Debug)]
pub struct MemberPlan {
    /// Position and file name of each member, in the order of the archive.
    pub wanted: Vec<(usize, String)>,
    /// Why the member behind them cannot be read, if there is one that cannot.
    pub broken: Option<String>,
}

/// What a list of members to install is.
pub open spec fn wanted_models(v: Seq<(usize, String)>) -> Seq<(int, Seq<char>)> {
    v.map_values(|m: (usize, String)| (m.0 as int, m.1@))
}

/// Which members of a listed archive are to be installed.
pub fn plan_members(members: &Vec<Result<String, String>>) -> (r: MemberPlan)
    ensures
        wanted_models(r.wanted@) == wanted_from(member_models(members@), 0),
        text_in(r.broken) == broken_from(member_models(members@), 0),
{
    let ghost all = member_models(members@);
    let mut wanted: Vec<(usize, String)> = Vec::new();
    let mut i: usize = 0;
    assert(wanted_models(wanted@) + wanted_from(all, 0) =~= wanted_from(all, 0));
    while i < members.len()
        invariant
            i <= members@.len(),
            all == member_models(members@),
            wanted_models(wanted@) + wanted_from(all, i as int) == wanted_from(all, 0),
            broken_from(all, i as int) == broken_from(all, 0),
        decreases members@.len() - i,
    {
        let ghost before = wanted_models(wanted@);
        assert(all[i as int] == member_model(members@[i as int]));
        match &members[i] {
            Ok(name) => match member_target(name.as_str()) {
                Some(t) => {
                    let ghost target = t@;
                    wanted.push((i, t));
                    assert(wanted_models(wanted@) =~= before + seq![(i as int, target)]);
                    assert(wanted_models(wanted@) + wanted_from(all, i + 1) =~= before
                        + wanted_from(all, i as int));
                },
                None => {},
            },
            Err(e) => {
                assert(wanted_models(wanted@) =~= wanted_from(all, 0));
                return MemberPlan { wanted, broken: Some(copy_text(e.as_str())) };
            },
        }
        i = i + 1;
    }
    assert(wanted_models(wanted@) =~= wanted_from(all, 0));
    MemberPlan { wanted, broken: None }
}

// ---------------------------------------------------------------------------
// Unpacking
// ---------------------------------------------------------------------------

/// What unpacking an archive gives: the files to write, in order, and the
/// failure that ended it, if one did.
pub struct UnpackedModel {
    pub files: Seq<(Seq<char>, Seq<u8>)>,
    pub failure: Option<DownloadErrorModel>,
}

/// The files of an archive.
#[derive(Debug)]
pub struct Unpacked {
    /// The files to write, each with its content, in the order of the archive;
    /// where a content is damaged, the last holds what was copied of it.
    pub files: Vec<(String, Vec<u8>)>,
    /// What ended the unpacking before all was read.
    pub failure: Option<DownloadError>,
}

/// What a list of files is.
pub open spec fn file_models(v: Seq<(String, Vec<u8>)>) -> Seq<(Seq<char>, Seq<u8>)> {
    v.map_values(|f: (String, Vec<u8>)| (f.0@, f.1@))
}

impl View for Unpacked {
    type V = UnpackedModel;

    open spec fn view(&self) -> UnpackedModel {
        UnpackedModel {
            files: file_models(self.files@),
            failure: match self.failure {
                Some(e) => Some(e@),
                None => None,
            },
        }
    }
}

/// What copying members gives.
pub open spec fn copy_models(v: Seq<(Vec<u8>, Option<String>)>) -> Seq<
    (Seq<u8>, Option<Seq<char>>),
> {
    v.map_values(|c: (Vec<u8>, Option<String>)| copy_model(c))
}

/// What the members from the `i`-th on give, by their file names and what
/// copying them gives: their files up to the first that cannot be copied,
/// which is left as far as it was copied. Behind the last, `broken` says why
/// the next cannot be read.
pub open spec fn gather_from(
    names: Seq<Seq<char>>,
    copies: Seq<(Seq<u8>, Option<Seq<char>>)>,
    broken: Option<Seq<char>>,
    i: int,
) -> UnpackedModel
    decreases names.len() - i,
{
    if i >= names.len() || i >= copies.len() {
        UnpackedModel {
            files: seq![],
            failure: match broken {
                Some(e) => Some(DownloadErrorModel::BadMember(e)),
                None => None,
            },
        }
    } else {
        let file = seq![(names[i], copies[i].0)];
        match copies[i].1 {
            None => {
                let rest = gather_from(names, copies, broken, i + 1);
                UnpackedModel { files: file + rest.files, failure: rest.failure }
            },
            Some(e) => UnpackedModel { files: file, failure: Some(DownloadErrorModel::Other(e)) },
        }
    }
}

/// The file names of members to install.
pub open spec fn wanted_names(wanted: Seq<(int, Seq<char>)>) -> Seq<Seq<char>> {
    wanted.map_values(|m: (int, Seq<char>)| m.1)
}

/// Copies of the members to install.
pub open spec fn copies_of(
    archive: Seq<u8>,
    wanted: Seq<(int, Seq<char>)>,
    copies: Seq<(Seq<u8>, Option<Seq<char>>)>,
) -> bool {
    &&& copies.len() == wanted.len()
    &&& forall|i: int|
        0 <= i < copies.len() ==> copy_of(
            zip_content(archive, wanted[i].0),
            #[trigger] copies[i],
        )
}

/// `u` is what unpacking an archive gives, from what its members are.
pub open spec fn unpacks(
    archive: Seq<u8>,
    members: Result<Seq<Result<Seq<char>, Seq<char>>>, Seq<char>>,
    u: UnpackedModel,
) -> bool {
    match members {
        Ok(v) => {
            let wanted = wanted_from(v, 0);
            exists|copies: Seq<(Seq<u8>, Option<Seq<char>>)>| #[trigger]
                copies_of(archive, wanted, copies) && u == gather_from(
                    wanted_names(wanted),
                    copies,
                    broken_from(v, 0),
                    0,
                )
        },
        Err(e) => u.files.len() == 0 && u.failure == Some(DownloadErrorModel::BadArchive(e)),
    }
}

/// Puts together what copying the planned members gave.
pub fn gather(plan: MemberPlan, copies: Vec<(Vec<u8>, Option<String>)>) -> (r: Unpacked)
    ensures
        r@ == gather_from(
            wanted_names(wanted_models(plan.wanted@)),
            copy_models(copies@),
            text_in(plan.broken),
            0,
        ),
{
    let ghost names = wanted_names(wanted_models(plan.wanted@));
    let ghost all = copy_models(copies@);
    let ghost broken = text_in(plan.broken);
    let ghost whole = gather_from(names, all, broken, 0);
    let mut files: Vec<(String, Vec<u8>)> = Vec::new();
    let mut i: usize = 0;
    assert(file_models(files@) + whole.files =~= whole.files);
    while i < plan.wanted.len() && i < copies.len()
        invariant
            i <= plan.wanted@.len(),
            i <= copies@.len(),
            names == wanted_names(wanted_models(plan.wanted@)),
            all == copy_models(copies@),
            broken == text_in(plan.broken),
            whole == gather_from(names, all, broken, 0),
            whole.failure == gather_from(names, all, broken, i as int).failure,
            file_models(files@) + gather_from(names, all, broken, i as int).files == whole.files,
        decreases plan.wanted@.len() - i,
    {
        let ghost before = file_models(files@);
        assert(names[i as int] == plan.wanted@[i as int].1@);
        assert(all[i as int] == copy_model(copies@[i as int]));
        let name = copy_text(plan.wanted[i].1.as_str());
        let data = copy_bytes(&copies[i].0);
        let ghost file = (name@, data@);
        files.push((name, data));
        assert(file_models(files@) =~= before + seq![file]);
        match &copies[i].1 {
            None => {
                assert(file_models(files@) + gather_from(names, all, broken, i + 1).files
                    =~= before + gather_from(names, all, broken, i as int).files);
            },
            Some(e) => {
                assert(file_models(files@) =~= whole.files);
                return Unpacked {
                    files,
                    failure: Some(DownloadError::Other(copy_text(e.as_str()))),
                };
            },
        }
        i = i + 1;
    }
    assert(file_models(files@) =~= whole.files);
    match plan.broken {
        Some(e) => Unpacked { files, failure: Some(DownloadError::BadMember(e)) },
        None => Unpacked { files, failure: None },
    }
}

/// A copy of some bytes.
fn copy_bytes(v: &Vec<u8>) -> (r: Vec<u8>)
    ensures
        r@ == v@,
{
    let mut out: Vec<u8> = Vec::new();
    let mut i: usize = 0;
    while i < v.len()
        invariant
            i <= v@.len(),
            out@ == v@.take(i as int),
        decreases v@.len() - i,
    {
        out.push(v[i]);
        i = i + 1;
    }
    assert(v@.take(v@.len() as int) =~= v@);
    out
}

/// Unpacks the DLLs of an archive. A DLL whose content is damaged is left as
/// far as it was copied, which is not said to be any number of bytes.
pub fn unpack(archive: &[u8]) -> (r: Unpacked)
    ensures
        unpacks(archive@, zip_members(archive@), r@),
{
    match list_archive(archive) {
        Ok(members) => {
            let plan = plan_members(&members);
            let ghost wanted = wanted_models(plan.wanted@);
            let mut copies: Vec<(Vec<u8>, Option<String>)> = Vec::new();
            let mut i: usize = 0;
            while i < plan.wanted.len()
                invariant
                    i <= plan.wanted@.len(),
                    wanted == wanted_models(plan.wanted@),
                    copies@.len() == i,
                    forall|j: int|
                        0 <= j < i ==> copy_of(
                            zip_content(archive@, wanted[j].0),
                            copy_model(#[trigger] copies@[j]),
                        ),
                decreases plan.wanted@.len() - i,
            {
                assert(wanted[i as int].0 == plan.wanted@[i as int].0 as int);
                copies.push(copy_member(archive, plan.wanted[i].0));
                i = i + 1;
            }
            proof {
                let all = copy_models(copies@);
                assert forall|j: int| 0 <= j < all.len() implies copy_of(
                    zip_content(archive@, wanted[j].0),
                    #[trigger] all[j],
                ) by {
                    assert(all[j] == copy_model(copies@[j]));
                }
                assert(copies_of(archive@, wanted, all));
            }
            gather(plan, copies)
        },
        Err(e) => {
            let files: Vec<(String, Vec<u8>)> = Vec::new();
            Unpacked { files, failure: Some(DownloadError::BadArchive(e)) }
        },
    }
}

/// What is put together, member by member.
proof fn lemma_gather(
    names: Seq<Seq<char>>,
    copies: Seq<(Seq<u8>, Option<Seq<char>>)>,
    broken: Option<Seq<char>>,
    i: int,
)
    requires
        0 <= i <= names.len(),
        copies.len() == names.len(),
    ensures
        ({
            let u = gather_from(names, copies, broken, i);
            let end = i + u.files.len();
            &&& end <= names.len()
            &&& forall|j: int|
                i <= j < end ==> u.files[j - i] == (names[j], (#[trigger] copies[j]).0)
            &&& forall|j: int| i <= j < end - 1 ==> (#[trigger] copies[j]).1 is None
            &&& match u.failure {
                Some(DownloadErrorModel::Other(e)) => i < end && copies[end - 1].1 == Some(e),
                Some(DownloadErrorModel::BadMember(e)) => broken == Some(e) && all_copied(
                    copies,
                    i,
                    end,
                ),
                Some(_) => false,
                None => broken is None && all_copied(copies, i, end),
            }
        }),
    decreases names.len() - i,
{
    if i < names.len() {
        lemma_gather(names, copies, broken, i + 1);
        let u = gather_from(names, copies, broken, i);
        let rest = gather_from(names, copies, broken, i + 1);
        if copies[i].1 is None {
            let end = i + u.files.len();
            assert(end == i + 1 + rest.files.len());
            assert forall|j: int| i <= j < end implies u.files[j - i] == (
                names[j],
                (#[trigger] copies[j]).0,
            ) by {
                if j > i {
                    assert(u.files[j - i] == rest.files[j - (i + 1)]);
                }
            }
        }
    }
}

/// From the `i`-th on, all members are copied, and the last is the one before `end`.
spec fn all_copied(copies: Seq<(Seq<u8>, Option<Seq<char>>)>, i: int, end: int) -> bool {
    &&& end == copies.len()
    &&& forall|j: int| i <= j < copies.len() ==> (#[trigger] copies[j]).1 is None
}

/// The files of an unpacked archive are those of its DLL members, in order,
/// each with the content of the member. They are all there unless a member
/// cannot be read. Where that is for the content of a DLL, its file is the
/// last, and the only one whose content may be another.
pub proof fn law_unpacked_files(
    archive: Seq<u8>,
    members: Seq<Result<Seq<char>, Seq<char>>>,
    u: UnpackedModel,
)
    requires
        unpacks(archive, Ok(members), u),
    ensures
        ({
            let wanted = wanted_from(members, 0);
            let n = u.files.len();
            &&& n <= wanted.len()
            &&& forall|k: int| 0 <= k < n ==> (#[trigger] u.files[k]).0 == wanted[k].1
            &&& forall|k: int|
                0 <= k < n && (k < n - 1 || !(u.failure matches Some(DownloadErrorModel::Other(_))))
                    ==> zip_content(archive, wanted[k].0) == Ok::<Seq<u8>, Seq<char>>(
                    (#[trigger] u.files[k]).1,
                )
            &&& match u.failure {
                Some(DownloadErrorModel::Other(e)) => n > 0 && zip_content(
                    archive,
                    wanted[n - 1].0,
                ) == Err::<Seq<u8>, Seq<char>>(e),
                Some(DownloadErrorModel::BadMember(e)) => n == wanted.len() && broken_from(
                    members,
                    0,
                ) == Some(e),
                Some(_) => false,
                None => n == wanted.len() && broken_from(members, 0) is None,
            }
        }),
{
    let wanted = wanted_from(members, 0);
    let names = wanted_names(wanted);
    let broken = broken_from(members, 0);
    let copies = choose|copies: Seq<(Seq<u8>, Option<Seq<char>>)>| #[trigger]
        copies_of(archive, wanted, copies) && u == gather_from(names, copies, broken, 0);
    lemma_gather(names, copies, broken, 0);
    let n = u.files.len();
    assert forall|k: int| 0 <= k < n implies (#[trigger] u.files[k]).0 == wanted[k].1 by {
        assert(u.files[k - 0] == (names[k], copies[k].0));
    }
    assert forall|k: int|
        0 <= k < n && (k < n - 1 || !(u.failure matches Some(
            DownloadErrorModel::Other(_),
        ))) implies zip_content(archive, wanted[k].0) == Ok::<Seq<u8>, Seq<char>>(
        (#[trigger] u.files[k]).1,
    ) by {
        assert(u.files[k - 0] == (names[k], copies[k].0));
        assert(copy_of(zip_content(archive, wanted[k].0), copies[k]));
        assert(copies[k].1 is None);
    }
    if u.failure matches Some(DownloadErrorModel::Other(e)) {
        assert(copy_of(zip_content(archive, wanted[n - 1].0), copies[n - 1]));
    }
}

// ---------------------------------------------------------------------------
// What was installed
// ---------------------------------------------------------------------------

/// Puts a text into its place in a sorted list, behind those equal to it.
pub open spec fn insert_sorted(s: Seq<Seq<char>>, x: Seq<char>) -> Seq<Seq<char>>
    decreases s.len(),
{
    if s.len() == 0 || !text_lt(x, s.last()) {
        s.push(x)
    } else {
        insert_sorted(s.drop_last(), x).push(s.last())
    }
}

/// The texts in order, each as often as it occurs.
pub open spec fn sort_spec(s: Seq<Seq<char>>) -> Seq<Seq<char>>
    decreases s.len(),
{
    if s.len() == 0 {
        seq![]
    } else {
        insert_sorted(sort_spec(s.drop_last()), s.last())
    }
}

/// Putting in a text that belongs behind position `i`, but before the rest.
proof fn lemma_insert_sorted(s: Seq<Seq<char>>, x: Seq<char>, i: int)
    requires
        0 <= i <= s.len(),
        i == 0 || !text_lt(x, s[i - 1]),
        forall|j: int| i <= j < s.len() ==> text_lt(x, #[trigger] s[j]),
    ensures
        insert_sorted(s, x) == s.insert(i, x),
    decreases s.len(),
{
    if i < s.len() {
        assert(s.last() == s[s.len() - 1]);
        assert forall|j: int| i <= j < s.len() - 1 implies text_lt(
            x,
            #[trigger] s.drop_last()[j],
        ) by {
            assert(s.drop_last()[j] == s[j]);
        }
        lemma_insert_sorted(s.drop_last(), x, i);
        assert(s.drop_last().insert(i, x).push(s.last()) =~= s.insert(i, x));
    } else {
        assert(s.push(x) =~= s.insert(i, x));
    }
}

/// Sorts texts.
pub fn sort_texts(v: &Vec<String>) -> (r: Vec<String>)
    ensures
        views(r@) == sort_spec(views(v@)),
{
    let ghost all = views(v@);
    let mut out: Vec<String> = Vec::new();
    let mut k: usize = 0;
    assert(views(out@) =~= sort_spec(all.take(0)));
    while k < v.len()
        invariant
            k <= v@.len(),
            all == views(v@),
            views(out@) == sort_spec(all.take(k as int)),
        decreases v@.len() - k,
    {
        let ghost sorted = views(out@);
        let x = copy_text(v[k].as_str());
        let ghost text = x@;
        let mut i: usize = out.len();
        while i > 0 && text_before(x.as_str(), out[i - 1].as_str())
            invariant
                i <= out@.len(),
                sorted == views(out@),
                text == x@,
                forall|j: int| i <= j < out@.len() ==> text_lt(text, #[trigger] sorted[j]),
            decreases i,
        {
            assert(sorted[i - 1] == out@[i - 1]@);
            i = i - 1;
        }
        assert(i > 0 ==> sorted[i - 1] == out@[i - 1]@);
        proof {
            lemma_insert_sorted(sorted, text, i as int);
        }
        out.insert(i, x);
        assert(views(out@) =~= sorted.insert(i as int, text));
        assert(all.take(k + 1).drop_last() =~= all.take(k as int));
        assert(all.take(k + 1).last() == v@[k as int]@);
        k = k + 1;
    }
    assert(all.take(all.len() as int) =~= all);
    out
}

/// The names of the files.
pub open spec fn names_of(files: Seq<(Seq<char>, Seq<u8>)>) -> Seq<Seq<char>> {
    files.map_values(|f: (Seq<char>, Seq<u8>)| f.0)
}

/// What an unpacked archive amounts to once its files are written: their
/// names in order, if all was read and there was a DLL at all.
pub open spec fn installed_spec(u: UnpackedModel) -> Result<Seq<Seq<char>>, DownloadErrorModel> {
    match u.failure {
        Some(e) => Err(e),
        None => if u.files.len() == 0 {
            Err(DownloadErrorModel::NoDll)
        } else {
            Ok(sort_spec(names_of(u.files)))
        },
    }
}

impl Unpacked {
    /// What the archive amounts to once its files are written.
    pub fn installed(self) -> (r: Result<Vec<String>, DownloadError>)
        ensures
            match r {
                Ok(names) => installed_spec(self@) == Ok::<Seq<Seq<char>>, DownloadErrorModel>(
                    views(names@),
                ),
                Err(e) => installed_spec(self@) == Err::<Seq<Seq<char>>, DownloadErrorModel>(e@),
            },
    {
        match self.failure {
            Some(e) => Err(e),
            None => if self.files.len() == 0 {
                Err(DownloadError::NoDll)
            } else {
                let mut names: Vec<String> = Vec::new();
                let mut i: usize = 0;
                while i < self.files.len()
                    invariant
                        i <= self.files@.len(),
                        names@.len() == i,
                        forall|j: int|
                            0 <= j < i ==> (#[trigger] names@[j])@ == self.files@[j].0@,
                    decreases self.files@.len() - i,
                {
                    names.push(copy_text(self.files[i].0.as_str()));
                    i = i + 1;
                }
                assert(views(names@) =~= names_of(file_models(self.files@)));
                Ok(sort_texts(&names))
            },
        }
    }
}

/// Putting a text into its place keeps a list in order, and adds just that text.
proof fn lemma_insert_sorted_keeps(s: Seq<Seq<char>>, x: Seq<char>)
    requires
        in_order(s),
    ensures
        in_order(insert_sorted(s, x)),
        insert_sorted(s, x).to_multiset() == s.to_multiset().insert(x),
        forall|k: int|
            0 <= k < insert_sorted(s, x).len() ==> (#[trigger] insert_sorted(s, x)[k] == x
                || s.contains(insert_sorted(s, x)[k])),
    decreases s.len(),
{
    broadcast use vstd::seq_lib::group_to_multiset_ensures;

    if s.len() == 0 || !text_lt(x, s.last()) {
        let r = s.push(x);
        assert forall|i: int, j: int| 0 <= i < j < r.len() implies !text_lt(
            #[trigger] r[j],
            #[trigger] r[i],
        ) by {
            if j == s.len() {
                lemma_text_lt_total(r[i], s.last());
                if text_lt(x, r[i]) {
                    if r[i] != s.last() {
                        assert(s.last() == s[s.len() - 1]);
                        assert(i < s.len() - 1);
                        assert(!text_lt(s[s.len() - 1], s[i]));
                        lemma_text_lt_transitive(x, r[i], s.last());
                    }
                }
            } else {
                assert(r[i] == s[i] && r[j] == s[j]);
            }
        }
        assert forall|k: int| 0 <= k < r.len() implies (#[trigger] r[k] == x || s.contains(
            r[k],
        )) by {
            if k < s.len() {
                assert(s[k] == r[k]);
            }
        }
    } else {
        let front = s.drop_last();
        let inner = insert_sorted(front, x);
        let r = inner.push(s.last());
        assert(in_order(front)) by {
            assert forall|i: int, j: int| 0 <= i < j < front.len() implies !text_lt(
                #[trigger] front[j],
                #[trigger] front[i],
            ) by {
                assert(front[i] == s[i] && front[j] == s[j]);
            }
        }
        lemma_insert_sorted_keeps(front, x);
        assert forall|i: int, j: int| 0 <= i < j < r.len() implies !text_lt(
            #[trigger] r[j],
            #[trigger] r[i],
        ) by {
            if j == inner.len() {
                assert(r[i] == inner[i]);
                if inner[i] == x {
                    if text_lt(s.last(), x) {
                        lemma_text_lt_transitive(x, s.last(), x);
                        lemma_text_lt_irreflexive(x);
                    }
                } else {
                    let k = choose|k: int| 0 <= k < front.len() && front[k] == inner[i];
                    assert(front[k] == s[k]);
                    assert(!text_lt(s[s.len() - 1], s[k]));
                }
            } else {
                assert(r[i] == inner[i] && r[j] == inner[j]);
            }
        }
        assert(front.push(s.last()) =~= s);
        assert(s.to_multiset() =~= front.to_multiset().insert(s.last()));
        assert(r.to_multiset() =~= s.to_multiset().insert(x));
        assert forall|k: int| 0 <= k < r.len() implies (#[trigger] r[k] == x || s.contains(
            r[k],
        )) by {
            if k < inner.len() {
                assert(r[k] == inner[k]);
                if inner[k] != x {
                    let m = choose|m: int| 0 <= m < front.len() && front[m] == inner[k];
                    assert(s[m] == front[m]);
                }
            } else {
                assert(s[s.len() - 1] == r[k]);
            }
        }
    }
}

/// No text of the list comes before an earlier one.
pub open spec fn in_order(s: Seq<Seq<char>>) -> bool {
    forall|i: int, j: int|
        0 <= i < j < s.len() ==> !text_lt(#[trigger] s[j], #[trigger] s[i])
}

/// The names that are reported for an archive are those of the files written
/// from it, each as often as it was written, in order.
pub proof fn law_installed_names(u: UnpackedModel)
    requires
        installed_spec(u) is Ok,
    ensures
        in_order(installed_spec(u)->Ok_0),
        installed_spec(u)->Ok_0.to_multiset() == names_of(u.files).to_multiset(),
{
    lemma_sort(names_of(u.files));
}

/// Sorting puts in order, and keeps every text.
proof fn lemma_sort(s: Seq<Seq<char>>)
    ensures
        in_order(sort_spec(s)),
        sort_spec(s).to_multiset() == s.to_multiset(),
    decreases s.len(),
{
    broadcast use vstd::seq_lib::group_to_multiset_ensures;

    if s.len() > 0 {
        lemma_sort(s.drop_last());
        lemma_insert_sorted_keeps(sort_spec(s.drop_last()), s.last());
        assert(s.drop_last().push(s.last()) =~= s);
    } else {
        assert(sort_spec(s) =~= s);
    }
}

/// The report on what an archive contained.
pub open spec fn archive_line_spec(names: Seq<Seq<char>>) -> Seq<char> {
    "  archive contained: "@ + join_spec(names, ", "@)
}

/// The report on what an archive contained.
pub fn archive_line(names: &Vec<String>) -> (r: String)
    ensures
        r@ == archive_line_spec(views(names@)),
{
    let mut out = copy_text("  archive contained: ");
    out.append(join(names, ", ").as_str());
    out
}

/// A member is installed under what stands behind its last `/` or `\`, if that
/// ends in `.dll`, letter case not counted; else it is not installed.
pub proof fn law_target(front: Seq<char>, base: Seq<char>)
    requires
        front.len() == 0 || front.last() == '/' || front.last() == '\\',
        !base.contains('/'),
        !base.contains('\\'),
    ensures
        target_of(front + base) == (if base.len() >= 4 && lower_spec(base).skip(base.len() - 4)
            == ".dll"@ {
            Some(base)
        } else {
            None
        }),
{
    let s = front + base;
    reveal_strlit(".dll");
    reveal_strlit("/");
    assert(".dll"@.len() == 4);
    assert("/"@.len() == 1 && "/"@[0] == '/');
    assert forall|j: int| front.len() <= j < s.len() implies s[j] != '/' && s[j] != '\\' by {
        assert(base.contains(base[j - front.len()]));
    }
    if front.len() > 0 {
        assert(s[front.len() - 1] == front.last());
    }
    lemma_base_name(s, front.len() as int);
    assert(s.skip(front.len() as int) =~= base);
    let low = lower_spec(base);
    if base.len() >= 4 {
        assert(low.skip(base.len() - 4) =~= low.subrange(low.len() - 4, low.len() as int));
        if "/"@.is_suffix_of(s) {
            assert(s.subrange(s.len() - 1, s.len() as int)[0] == s.last());
            assert(s.last() == base.last());
        }
    }
}

/// Which members are installed: those with a file to be installed as, each at
/// its place in the archive, up to the first member that cannot be read, of
/// which the failure is kept.
pub proof fn law_wanted(members: Seq<Result<Seq<char>, Seq<char>>>)
    ensures
        ({
            let w = wanted_from(members, 0);
            &&& forall|j: int, k: int|
                0 <= j < k < w.len() ==> (#[trigger] w[j]).0 < (#[trigger] w[k]).0
            &&& forall|i: int, t: Seq<char>|
                w.contains((i, t)) <==> #[trigger] wanted_at(members, 0, i, t)
        }),
        match broken_from(members, 0) {
            Some(e) => exists|i: int|
                0 <= i < members.len() && #[trigger] members[i] == Err::<Seq<char>, Seq<char>>(e)
                    && readable_to(members, 0, i),
            None => readable_to(members, 0, members.len() as int),
        },
{
    lemma_wanted(members, 0);
    lemma_broken(members, 0);
}

/// The members from `from` to `to` can be read.
pub open spec fn readable_to(
    members: Seq<Result<Seq<char>, Seq<char>>>,
    from: int,
    to: int,
) -> bool {
    forall|j: int| from <= j < to ==> (#[trigger] members[j]) is Ok
}

/// From `from` on, the member `i` is installed as `t`.
pub open spec fn wanted_at(
    members: Seq<Result<Seq<char>, Seq<char>>>,
    from: int,
    i: int,
    t: Seq<char>,
) -> bool {
    &&& from <= i < members.len()
    &&& readable_to(members, from, i + 1)
    &&& target_of(members[i]->Ok_0) == Some(t)
}

/// Which members are installed, from a place on.
proof fn lemma_wanted(members: Seq<Result<Seq<char>, Seq<char>>>, from: int)
    requires
        0 <= from,
    ensures
        ({
            let w = wanted_from(members, from);
            &&& forall|j: int, k: int|
                0 <= j < k < w.len() ==> (#[trigger] w[j]).0 < (#[trigger] w[k]).0
            &&& forall|i: int, t: Seq<char>|
                w.contains((i, t)) <==> #[trigger] wanted_at(members, from, i, t)
        }),
    decreases members.len() - from,
{
    let w = wanted_from(members, from);
    if from < members.len() {
        lemma_wanted(members, from + 1);
        let rest = wanted_from(members, from + 1);
        if members[from] is Ok {
            let target = target_of(members[from]->Ok_0);
            assert forall|i: int, t: Seq<char>| #[trigger]
                wanted_at(members, from, i, t) <==> (if i == from {
                    target == Some(t)
                } else {
                    wanted_at(members, from + 1, i, t)
                }) by {
                if from < i < members.len() {
                    if readable_to(members, from + 1, i + 1) {
                        assert(readable_to(members, from, i + 1));
                    }
                }
            }
            if target is Some {
                let first = (from, target->0);
                assert(w =~= seq![first] + rest);
                assert forall|i: int, t: Seq<char>| w.contains((i, t)) <==> #[trigger] wanted_at(
                    members,
                    from,
                    i,
                    t,
                ) by {
                    assert(rest.contains((i, t)) <==> wanted_at(members, from + 1, i, t));
                    if w.contains((i, t)) {
                        let k = choose|k: int| 0 <= k < w.len() && w[k] == (i, t);
                        if k > 0 {
                            assert(rest[k - 1] == (i, t));
                        }
                    }
                    if rest.contains((i, t)) {
                        let k = choose|k: int| 0 <= k < rest.len() && rest[k] == (i, t);
                        assert(w[k + 1] == (i, t));
                    }
                    if i == from && target == Some(t) {
                        assert(w[0] == (i, t));
                    }
                }
                assert forall|j: int, k: int| 0 <= j < k < w.len() implies (#[trigger] w[j]).0 < (
                #[trigger] w[k]).0 by {
                    assert(w[k] == rest[k - 1]);
                    assert(rest.contains((rest[k - 1].0, rest[k - 1].1)));
                    assert(wanted_at(members, from + 1, rest[k - 1].0, rest[k - 1].1));
                    if j > 0 {
                        assert(w[j] == rest[j - 1]);
                    }
                }
            } else {
                assert(w == rest);
                assert forall|i: int, t: Seq<char>| w.contains((i, t)) <==> #[trigger] wanted_at(
                    members,
                    from,
                    i,
                    t,
                ) by {
                    assert(rest.contains((i, t)) <==> wanted_at(members, from + 1, i, t));
                }
            }
        } else {
            assert forall|i: int, t: Seq<char>| !(#[trigger] wanted_at(members, from, i, t)) by {
                if wanted_at(members, from, i, t) {
                    assert(members[from] is Ok);
                }
            }
        }
    }
}

/// Which member cannot be read, from a place on.
proof fn lemma_broken(members: Seq<Result<Seq<char>, Seq<char>>>, from: int)
    requires
        0 <= from,
    ensures
        match broken_from(members, from) {
            Some(e) => exists|i: int|
                from <= i < members.len() && #[trigger] members[i] == Err::<Seq<char>, Seq<char>>(e)
                    && readable_to(members, from, i),
            None => readable_to(members, from, members.len() as int),
        },
    decreases members.len() - from,
{
    if from < members.len() {
        if members[from] is Ok {
            lemma_broken(members, from + 1);
            if broken_from(members, from) is Some {
                let e = broken_from(members, from)->0;
                let i = choose|i: int|
                    from + 1 <= i < members.len() && #[trigger] members[i] == Err::<
                        Seq<char>,
                        Seq<char>,
                    >(e) && readable_to(members, from + 1, i);
                assert(readable_to(members, from, i));
            }
        } else {
            assert(members[from] == Err::<Seq<char>, Seq<char>>(members[from]->Err_0));
            assert(readable_to(members, from, from));
        }
    }
}

/// An archive is installed if and only if all of it could be read and there
/// was a DLL; the report names the files.
pub proof fn law_installed(u: UnpackedModel, names: Seq<Seq<char>>)
    ensures
        u.failure is Some ==> installed_spec(u) == Err::<Seq<Seq<char>>, DownloadErrorModel>(
            u.failure->0,
        ),
        u.failure is None && u.files.len() == 0 ==> installed_spec(u) == Err::<
            Seq<Seq<char>>,
            DownloadErrorModel,
        >(DownloadErrorModel::NoDll),
        u.failure is None && u.files.len() > 0 ==> installed_spec(u) is Ok && (
        installed_spec(u)->Ok_0).len() == u.files.len(),
        archive_line_spec(names) == "  archive contained: "@ + join_spec(names, ", "@),
{
    lemma_sort_len(names_of(u.files));
}

/// Sorting keeps the number of texts.
proof fn lemma_sort_len(s: Seq<Seq<char>>)
    ensures
        sort_spec(s).len() == s.len(),
    decreases s.len(),
{
    if s.len() > 0 {
        lemma_sort_len(s.drop_last());
        lemma_insert_len(sort_spec(s.drop_last()), s.last());
    }
}

/// Putting a text into its place adds one.
proof fn lemma_insert_len(s: Seq<Seq<char>>, x: Seq<char>)
    ensures
        insert_sorted(s, x).len() == s.len() + 1,
    decreases s.len(),
{
    if s.len() > 0 && text_lt(x, s.last()) {
        lemma_insert_len(s.drop_last(), x);
    }
}

/// From what is no archive nothing is unpacked, and the error says why.
pub proof fn law_bad_archive(archive: Seq<u8>, e: Seq<char>, u: UnpackedModel)
    ensures
        unpacks(archive, Err(e), u) <==> u.files.len() == 0 && u.failure == Some(
            DownloadErrorModel::BadArchive(e),
        ),
{
}

} // verus!
