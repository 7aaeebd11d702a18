//! The users of the system, read from the contents of `/etc/group` and `/etc/passwd`.
use vstd::prelude::*;
use std::collections::HashMap;
use crate::text::{
    chars_of, ends_with, ends_with_chars, lemma_split_upto_nonempty, lines, lines_chars,
    parse_uint, parse_uint_chars, pieces_view, split, split_chars, string_of, trim, trim_chars,
    trim_end, trim_end_chars, IntErrorKind,
};
use crate::sysinfo::error::{int_failure, int_failure_text, Error, InnerError};

verus! {

broadcast use vstd::std_specs::hash::group_hash_axioms;

/// A user who can log in.
#[derive(Debug)]
pub struct User {
    name: String,
    uid: u32,
    gid: u32,
    groups: String,
}

/// The view of a user.
pub struct UserView {
    pub name: Seq<char>,
    pub uid: u32,
    pub gid: u32,
    pub groups: Seq<char>,
}

impl View for User {
    type V = UserView;

    closed spec fn view(&self) -> UserView {
        UserView { name: self.name@, uid: self.uid, gid: self.gid, groups: self.groups@ }
    }
}

/// The users of the system, keyed by user id.
pub struct UserInfo {
    usrs_set: HashMap<u32, User>,
}

/// Piece `i` of `fs`, or the empty text where there is none.
pub open spec fn piece_or_empty(fs: Seq<Seq<char>>, i: int) -> Seq<char> {
    if 0 <= i < fs.len() {
        fs[i]
    } else {
        Seq::empty()
    }
}

/// The group id of a line of the group file: its third field, trimmed.
pub open spec fn group_id_of(line: Seq<char>) -> Result<int, IntErrorKind> {
    parse_uint(trim(piece_or_empty(split(line, ':'), 2)), u32::MAX as int)
}

/// The group name of a line of the group file: its first field, trimmed.
pub open spec fn group_name_of(line: Seq<char>) -> Seq<char> {
    trim(piece_or_empty(split(line, ':'), 0))
}

/// The groups named by the first `n` lines, a later line replacing an earlier one of the
/// same id; the first line whose id does not parse is the error.
pub open spec fn group_table(ls: Seq<Seq<char>>, n: int) -> Result<
    Map<u32, Seq<char>>,
    IntErrorKind,
>
    decreases n,
{
    if n <= 0 {
        Ok(Map::empty())
    } else {
        match group_table(ls, n - 1) {
            Err(e) => Err(e),
            Ok(m) => match group_id_of(ls[n - 1]) {
                Err(e) => Err(e),
                Ok(g) => Ok(m.insert(g as u32, group_name_of(ls[n - 1]))),
            },
        }
    }
}

/// Once a line of the group file fails, the table keeps its error.
proof fn lemma_group_error_stays(ls: Seq<Seq<char>>, n: int, m: int)
    requires
        n <= m,
        group_table(ls, n) is Err,
    ensures
        group_table(ls, m) == group_table(ls, n),
    decreases m - n,
{
    if n < m {
        lemma_group_error_stays(ls, n, m - 1);
    }
}

/// The groups of a group file.
pub open spec fn groups_of(group: Seq<char>) -> Result<Map<u32, Seq<char>>, IntErrorKind> {
    group_table(lines(group), lines(group).len() as int)
}

/// What a line of the passwd file gives.
pub enum UserLine {
    /// The user cannot log in, or the user id does not parse.
    Skip,
    /// A user: name, user id, group id.
    Entry(Seq<char>, u32, u32),
    /// The group id does not parse.
    Bad(IntErrorKind),
}

/// Whether a login shell lets nobody in: none, or one that ends in `/false` or
/// `/nologin`.
pub open spec fn no_login(shell: Seq<char>) -> bool {
    shell.len() == 0 || ends_with(shell, "/false"@) || ends_with(shell, "/nologin"@)
}

/// The login shell of a passwd line: its last field, without trailing whitespace.
pub open spec fn shell_of(line: Seq<char>) -> Seq<char> {
    trim_end(split(line, ':').last())
}

/// What a line of the passwd file gives: nothing where it cannot log in or where its
/// third field is not a user id; otherwise the user, or the error of its fourth field.
pub open spec fn user_line(line: Seq<char>) -> UserLine {
    let fs = split(line, ':');
    if no_login(shell_of(line)) {
        UserLine::Skip
    } else {
        match parse_uint(fs[2], u32::MAX as int) {
            Err(_) => UserLine::Skip,
            Ok(uid) => match parse_uint(fs[3], u32::MAX as int) {
                Err(e) => UserLine::Bad(e),
                Ok(gid) => UserLine::Entry(fs[0], uid as u32, gid as u32),
            },
        }
    }
}

/// A passwd line has the fields that are read of it.
pub open spec fn passwd_line_readable(line: Seq<char>) -> bool {
    let fs = split(line, ':');
    no_login(shell_of(line)) || (fs.len() >= 3 && (parse_uint(fs[2], u32::MAX as int) is Err
        || fs.len() >= 4))
}

/// Every line of a passwd file has the fields that are read of it.
pub open spec fn passwd_readable(passwd: Seq<char>) -> bool {
    forall|i: int| 0 <= i < lines(passwd).len() ==> passwd_line_readable(#[trigger] lines(passwd)[i])
}

/// The group name of `gid`, or `no_group`.
pub open spec fn group_name(groups: Map<u32, Seq<char>>, gid: u32) -> Seq<char> {
    if groups.contains_key(gid) {
        groups[gid]
    } else {
        "no_group"@
    }
}

/// The users of the first `n` lines of a passwd file, a later line replacing an earlier
/// one of the same id; the first group id that does not parse is the error.
pub open spec fn user_table(ls: Seq<Seq<char>>, n: int, groups: Map<u32, Seq<char>>) -> Result<
    Map<u32, UserView>,
    IntErrorKind,
>
    decreases n,
{
    if n <= 0 {
        Ok(Map::empty())
    } else {
        match user_table(ls, n - 1, groups) {
            Err(e) => Err(e),
            Ok(m) => match user_line(ls[n - 1]) {
                UserLine::Skip => Ok(m),
                UserLine::Bad(e) => Err(e),
                UserLine::Entry(name, uid, gid) => Ok(
                    m.insert(uid, UserView { name, uid, gid, groups: group_name(groups, gid) }),
                ),
            },
        }
    }
}

/// The users of a passwd file.
pub open spec fn users_of(passwd: Seq<char>, groups: Map<u32, Seq<char>>) -> Result<
    Map<u32, UserView>,
    IntErrorKind,
> {
    user_table(lines(passwd), lines(passwd).len() as int, groups)
}

/// The views of a table of users.
pub open spec fn users_view(m: Map<u32, User>) -> Map<u32, UserView> {
    m.map_values(|u: User| u@)
}

/// The views of a table of names.
pub open spec fn names_view(m: Map<u32, String>) -> Map<u32, Seq<char>> {
    m.map_values(|s: String| s@)
}

fn read_groups(group: &str) -> (r: Result<HashMap<u32, String>, IntErrorKind>)
    ensures
        match r {
            Ok(m) => groups_of(group@) == Ok::<Map<u32, Seq<char>>, IntErrorKind>(names_view(m@)),
            Err(e) => groups_of(group@) == Err::<Map<u32, Seq<char>>, IntErrorKind>(e),
        },
{
    let text = chars_of(group);
    let ls = lines_chars(text.as_slice());
    let ghost lv = lines(group@);
    let mut m: HashMap<u32, String> = HashMap::new();
    let mut i: usize = 0;
    assert(names_view(m@) =~= Map::empty());
    while i < ls.len()
        invariant
            i <= ls@.len(),
            pieces_view(ls@) == lv,
            lv == lines(group@),
            group_table(lv, i as int) == Ok::<Map<u32, Seq<char>>, IntErrorKind>(names_view(m@)),
        decreases ls.len() - i,
    {
        assert(ls@[i as int]@ == lv[i as int]);
        let fs = split_chars(ls[i].as_slice(), ':');
        let key = if fs.len() > 2 {
            trim_chars(fs[2].as_slice())
        } else {
            Vec::new()
        };
        let name = trim_chars(fs[0].as_slice());
        assert(pieces_view(fs@)[0] == fs@[0]@);
        assert(fs.len() > 2 ==> pieces_view(fs@)[2] == fs@[2]@);
        assert(key@ == trim(piece_or_empty(split(lv[i as int], ':'), 2)));
        let gid = match parse_uint_chars(key.as_slice(), 0xffff_ffff) {
            Ok(g) => g,
            Err(e) => {
                proof {
                    lemma_group_error_stays(lv, i + 1, lv.len() as int);
                }
                return Err(e);
            },
        };
        let ghost old_m = m@;
        m.insert(gid as u32, string_of(name.as_slice()));
        assert(names_view(m@) =~= names_view(old_m).insert(gid as u32, group_name_of(lv[i as int])));
        i = i + 1;
    }
    Ok(m)
}

/// Once a line of the passwd file fails, the table keeps its error.
proof fn lemma_user_error_stays(ls: Seq<Seq<char>>, n: int, m: int, groups: Map<u32, Seq<char>>)
    requires
        n <= m,
        user_table(ls, n, groups) is Err,
    ensures
        user_table(ls, m, groups) == user_table(ls, n, groups),
    decreases m - n,
{
    if n < m {
        lemma_user_error_stays(ls, n, m - 1, groups);
    }
}

/// Whether the login shell `shell` lets nobody in.
fn no_login_chars(shell: &[char]) -> (b: bool)
    ensures
        b == no_login(shell@),
{
    let f = chars_of("/false");
    let n = chars_of("/nologin");
    shell.len() == 0 || ends_with_chars(shell, f.as_slice()) || ends_with_chars(
        shell,
        n.as_slice(),
    )
}

fn read_users(passwd: &str, groups: &HashMap<u32, String>) -> (r: Result<
    HashMap<u32, User>,
    IntErrorKind,
>)
    requires
        passwd_readable(passwd@),
    ensures
        match r {
            Ok(m) => users_of(passwd@, names_view(groups@)) == Ok::<
                Map<u32, UserView>,
                IntErrorKind,
            >(users_view(m@)),
            Err(e) => users_of(passwd@, names_view(groups@)) == Err::<
                Map<u32, UserView>,
                IntErrorKind,
            >(e),
        },
{
    let text = chars_of(passwd);
    let ls = lines_chars(text.as_slice());
    let ghost lv = lines(passwd@);
    let ghost gv = names_view(groups@);
    let mut m: HashMap<u32, User> = HashMap::new();
    let mut i: usize = 0;
    assert(users_view(m@) =~= Map::empty());
    while i < ls.len()
        invariant
            i <= ls@.len(),
            pieces_view(ls@) == lv,
            lv == lines(passwd@),
            gv == names_view(groups@),
            passwd_readable(passwd@),
            user_table(lv, i as int, gv) == Ok::<Map<u32, UserView>, IntErrorKind>(
                users_view(m@),
            ),
        decreases ls.len() - i,
    {
        let ghost line = lv[i as int];
        assert(ls@[i as int]@ == line);
        assert(passwd_line_readable(line));
        let fs = split_chars(ls[i].as_slice(), ':');
        assert(pieces_view(fs@)[fs@.len() - 1] == fs@[fs@.len() - 1]@);
        let shell = trim_end_chars(fs[fs.len() - 1].as_slice());
        if no_login_chars(shell.as_slice()) {
            i = i + 1;
            continue;
        }
        assert(pieces_view(fs@)[2] == fs@[2]@);
        let uid = match parse_uint_chars(fs[2].as_slice(), 0xffff_ffff) {
            Ok(u) => u as u32,
            Err(_) => {
                i = i + 1;
                continue;
            },
        };
        assert(pieces_view(fs@)[3] == fs@[3]@);
        let gid = match parse_uint_chars(fs[3].as_slice(), 0xffff_ffff) {
            Ok(g) => g as u32,
            Err(e) => {
                proof {
                    lemma_user_error_stays(lv, i + 1, lv.len() as int, gv);
                }
                return Err(e);
            },
        };
        assert(pieces_view(fs@)[0] == fs@[0]@);
        let group_info = match groups.get(&gid) {
            Some(g) => g.clone(),
            None => "no_group".to_owned(),
        };
        let user = User { name: string_of(fs[0].as_slice()), uid, gid, groups: group_info };
        let ghost old_m = m@;
        let ghost uv = user@;
        assert(uv == UserView { name: fs@[0]@, uid, gid, groups: group_name(gv, gid) });
        m.insert(uid, user);
        assert(users_view(m@) =~= users_view(old_m).insert(uid, uv));
        i = i + 1;
    }
    Ok(m)
}

/// The message of a group file whose group id does not parse.
pub open spec fn group_failure(e: IntErrorKind) -> Seq<char> {
    int_failure_text("transfer type fail, error is "@, e, "."@)
}

/// The message of a passwd file whose group id does not parse.
pub open spec fn passwd_failure(e: IntErrorKind) -> Seq<char> {
    int_failure_text("Parsing group_id fail, error is "@, e, "."@)
}

impl UserInfo {
    /// The users, keyed by user id.
    pub closed spec fn table(&self) -> Map<u32, UserView> {
        users_view(self.usrs_set@)
    }

    /// Reads the users from the contents of the group and passwd files. A group id of the
    /// group file that does not parse, or a group id of a user who can log in that does
    /// not, is an error whose message tells the parse error; a user whose user id does not
    /// parse is left out, and so is every user who cannot log in.
    pub fn new(group: &str, passwd: &str) -> (r: Result<Self, Error>)
        requires
            passwd_readable(passwd@),
        ensures
            match groups_of(group@) {
                Err(e) => r matches Err(Error::Internal(InnerError::ReadError(m))) && m@
                    == group_failure(e),
                Ok(g) => match users_of(passwd@, g) {
                    Err(e) => r matches Err(Error::Internal(InnerError::ReadError(m))) && m@
                        == passwd_failure(e),
                    Ok(u) => r matches Ok(info) && info.table() == u,
                },
            },
    {
        let groups = match read_groups(group) {
            Ok(g) => g,
            Err(e) => {
                return Err(int_failure("transfer type fail, error is ", e, "."));
            },
        };
        match read_users(passwd, &groups) {
            Ok(users) => Ok(UserInfo { usrs_set: users }),
            Err(e) => Err(int_failure("Parsing group_id fail, error is ", e, ".")),
        }
    }

    /// Whether every line of a passwd file has the fields that are read of it.
    pub fn passwd_readable(passwd: &str) -> (b: bool)
        ensures
            b == passwd_readable(passwd@),
    {
        let text = chars_of(passwd);
        let ls = lines_chars(text.as_slice());
        let mut i: usize = 0;
        while i < ls.len()
            invariant
                i <= ls@.len(),
                pieces_view(ls@) == lines(passwd@),
                forall|j: int| 0 <= j < i ==> passwd_line_readable(#[trigger] lines(passwd@)[j]),
            decreases ls.len() - i,
        {
            assert(ls@[i as int]@ == lines(passwd@)[i as int]);
            let fs = split_chars(ls[i].as_slice(), ':');
            assert(pieces_view(fs@)[fs@.len() - 1] == fs@[fs@.len() - 1]@);
            let shell = trim_end_chars(fs[fs.len() - 1].as_slice());
            if !no_login_chars(shell.as_slice()) {
                if fs.len() < 3 {
                    return false;
                }
                assert(pieces_view(fs@)[2] == fs@[2]@);
                if parse_uint_chars(fs[2].as_slice(), 0xffff_ffff).is_ok() && fs.len() < 4 {
                    return false;
                }
            }
            i = i + 1;
        }
        true
    }

    /// The users, keyed by user id.
    pub fn get_all_users_info(&mut self) -> (r: Result<&HashMap<u32, User>, Error>)
        ensures
            r matches Ok(m) && users_view(m@) == old(self).table(),
            final(self).table() == old(self).table(),
    {
        Ok(&self.usrs_set)
    }

    /// The name of the user `uid`.
    pub fn get_username_by_uid(&mut self, uid: u32) -> (r: Result<&String, Error>)
        requires
            old(self).table().contains_key(uid),
        ensures
            r matches Ok(n) && n@ == old(self).table()[uid].name,
            final(self).table() == old(self).table(),
    {
        let user = self.usrs_set.get(&uid).unwrap();
        Ok(&user.name)
    }

    /// The group id of the user `uid`.
    pub fn get_gid_by_uid(&mut self, uid: u32) -> (r: Result<u32, Error>)
        requires
            old(self).table().contains_key(uid),
        ensures
            r matches Ok(g) && g == old(self).table()[uid].gid,
            final(self).table() == old(self).table(),
    {
        let user = self.usrs_set.get(&uid).unwrap();
        Ok(user.gid)
    }

    /// The group name of the user `uid`.
    pub fn get_group_by_uid(&mut self, uid: u32) -> (r: Result<&String, Error>)
        requires
            old(self).table().contains_key(uid),
        ensures
            r matches Ok(g) && g@ == old(self).table()[uid].groups,
            final(self).table() == old(self).table(),
    {
        let user = self.usrs_set.get(&uid).unwrap();
        Ok(&user.groups)
    }
}

/// Each user is filed under its own user id.
pub proof fn law_users_keyed_by_uid(ls: Seq<Seq<char>>, n: int, groups: Map<u32, Seq<char>>)
    ensures
        user_table(ls, n, groups) matches Ok(m) ==> forall|uid: u32|
            #[trigger] m.contains_key(uid) ==> m[uid].uid == uid,
    decreases n,
{
    if n > 0 {
        law_users_keyed_by_uid(ls, n - 1, groups);
    }
}

/// Every group read from the first `n` lines of a group file comes from one of them: its
/// id is the number in the third `:`-separated field of that line and its name the first
/// field, both trimmed.
pub proof fn law_group_fields(ls: Seq<Seq<char>>, n: int)
    requires
        0 <= n <= ls.len(),
    ensures
        group_table(ls, n) matches Ok(m) ==> forall|g: u32|
            #[trigger] m.contains_key(g) ==> exists|j: int|
                0 <= j < n && split(ls[j], ':').len() > 2 && parse_uint(
                    trim(split(ls[j], ':')[2]),
                    u32::MAX as int,
                ) == Ok::<int, IntErrorKind>(g as int) && m[g] == trim(split(ls[j], ':')[0]),
    decreases n,
{
    if n > 0 {
        law_group_fields(ls, n - 1);
        if group_table(ls, n) is Ok {
            let m = group_table(ls, n)->Ok_0;
            let prev = group_table(ls, n - 1)->Ok_0;
            let l = ls[n - 1];
            let gid = group_id_of(l)->Ok_0;
            crate::text::lemma_parse_uint_range(trim(piece_or_empty(split(l, ':'), 2)), u32::MAX as int);
            lemma_split_upto_nonempty(l, ':', l.len() as int);
            assert(parse_uint(Seq::<char>::empty(), u32::MAX as int) is Err);
            assert forall|g: u32| #[trigger] m.contains_key(g) implies exists|j: int|
                0 <= j < n && split(ls[j], ':').len() > 2 && parse_uint(
                    trim(split(ls[j], ':')[2]),
                    u32::MAX as int,
                ) == Ok::<int, IntErrorKind>(g as int) && m[g] == trim(split(ls[j], ':')[0]) by {
                if g == gid as u32 {
                    assert(split(l, ':').len() > 2);
                    assert(0 <= n - 1 < n);
                } else {
                    assert(prev.contains_key(g));
                }
            }
        }
    }
}

/// Every user read from the first `n` lines of a passwd file comes from one of them whose
/// login shell (the last `:`-separated field) is neither empty nor ends in `/false` or
/// `/nologin`: its name is the first field, its user id the number in the third and its
/// group id the number in the fourth; its group is the name of that group id, or
/// `no_group`. (Each line has the fields that are read of it, as reading the file requires.)
pub proof fn law_user_fields(ls: Seq<Seq<char>>, n: int, groups: Map<u32, Seq<char>>)
    requires
        0 <= n <= ls.len(),
        forall|i: int| 0 <= i < n ==> passwd_line_readable(#[trigger] ls[i]),
    ensures
        user_table(ls, n, groups) matches Ok(m) ==> forall|uid: u32|
            #[trigger] m.contains_key(uid) ==> exists|j: int|
                0 <= j < n && split(ls[j], ':').len() > 3 && m[uid].name == split(ls[j], ':')[0]
                    && parse_uint(split(ls[j], ':')[2], u32::MAX as int) == Ok::<int, IntErrorKind>(
                    uid as int,
                ) && parse_uint(split(ls[j], ':')[3], u32::MAX as int) == Ok::<int, IntErrorKind>(
                    m[uid].gid as int,
                ) && trim_end(split(ls[j], ':').last()).len() > 0 && !ends_with(
                    trim_end(split(ls[j], ':').last()),
                    "/false"@,
                ) && !ends_with(trim_end(split(ls[j], ':').last()), "/nologin"@) && m[uid].groups
                    == (if groups.contains_key(m[uid].gid) {
                    groups[m[uid].gid]
                } else {
                    "no_group"@
                }),
    decreases n,
{
    if n > 0 {
        law_user_fields(ls, n - 1, groups);
        if user_table(ls, n, groups) is Ok {
            let m = user_table(ls, n, groups)->Ok_0;
            let prev = user_table(ls, n - 1, groups)->Ok_0;
            let l = ls[n - 1];
            let fs = split(l, ':');
            assert forall|uid: u32| #[trigger] m.contains_key(uid) implies exists|j: int|
                0 <= j < n && split(ls[j], ':').len() > 3 && m[uid].name == split(ls[j], ':')[0]
                    && parse_uint(split(ls[j], ':')[2], u32::MAX as int) == Ok::<int, IntErrorKind>(
                    uid as int,
                ) && parse_uint(split(ls[j], ':')[3], u32::MAX as int) == Ok::<int, IntErrorKind>(
                    m[uid].gid as int,
                ) && trim_end(split(ls[j], ':').last()).len() > 0 && !ends_with(
                    trim_end(split(ls[j], ':').last()),
                    "/false"@,
                ) && !ends_with(trim_end(split(ls[j], ':').last()), "/nologin"@) && m[uid].groups
                    == (if groups.contains_key(m[uid].gid) {
                    groups[m[uid].gid]
                } else {
                    "no_group"@
                }) by {
                match user_line(l) {
                    UserLine::Entry(name, u, gd) => {
                        if uid == u {
                            crate::text::lemma_parse_uint_range(fs[2], u32::MAX as int);
                            crate::text::lemma_parse_uint_range(fs[3], u32::MAX as int);
                            assert(0 <= n - 1 < n);
                            assert(passwd_line_readable(ls[n - 1]));
                            assert(fs.len() > 3);
                        } else {
                            assert(prev.contains_key(uid));
                        }
                    },
                    _ => {
                        assert(prev.contains_key(uid));
                    },
                }
            }
        }
    }
}

} // verus!
