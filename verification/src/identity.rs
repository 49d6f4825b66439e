//! Accounts: local account records, and the identity that a process runs with.

use vstd::prelude::*;

use crate::model;
use crate::model::{
    IdentityModel, IdentitySelection, IdentitySpec, ManagerScope, ProcessDefinition, ProcessModel,
    ResolvedIdentity, SelectionModel,
};
use crate::search;
use crate::text;

verus! {

broadcast use vstd::string::group_string_axioms;

/// An account record.
#[derive(Debug)]
pub struct UserRecord {
    pub name: String,
    pub uid: u32,
    pub gid: u32,
    pub home: String,
    pub shell: String,
}

/// A group record.
#[derive(Debug)]
pub struct GroupRecord {
    pub name: String,
    pub gid: u32,
    pub members: Vec<String>,
}

/// What a [`UserRecord`] holds.
#[verifier::ext_equal]
pub struct UserModel {
    pub name: Seq<char>,
    pub uid: u32,
    pub gid: u32,
    pub home: Seq<char>,
    pub shell: Seq<char>,
}

/// What a [`GroupRecord`] holds.
#[verifier::ext_equal]
pub struct GroupRecordModel {
    pub name: Seq<char>,
    pub gid: u32,
    pub members: Seq<Seq<char>>,
}

impl View for UserRecord {
    type V = UserModel;

    open spec fn view(&self) -> UserModel {
        UserModel {
            name: self.name@,
            uid: self.uid,
            gid: self.gid,
            home: self.home@,
            shell: self.shell@,
        }
    }
}

impl View for GroupRecord {
    type V = GroupRecordModel;

    open spec fn view(&self) -> GroupRecordModel {
        GroupRecordModel {
            name: self.name@,
            gid: self.gid,
            members: text::texts(self.members@),
        }
    }
}

/// What a list of accounts holds.
pub open spec fn user_models(list: Seq<UserRecord>) -> Seq<UserModel> {
    Seq::new(list.len(), |i: int| list[i]@)
}

/// What a list of groups holds.
pub open spec fn group_record_models(list: Seq<GroupRecord>) -> Seq<GroupRecordModel> {
    Seq::new(list.len(), |i: int| list[i]@)
}

/// Why an identity cannot be had.
#[derive(Debug)]
pub enum IdentityError {
    Read { path: String, source: String },
    InvalidEntry { file: &'static str, line: usize, reason: String },
    UnknownUser(String),
    UnknownUid(u32),
    UnknownGroup(String),
    UnknownGid(u32),
    UserUidMismatch { requested: u32, manager: u32 },
    UserGidMismatch { requested: u32, manager: u32 },
}

/// What an [`IdentityError`] says.
#[verifier::ext_equal]
pub enum IdentityErrorModel {
    Read { path: Seq<char>, source: Seq<char> },
    InvalidEntry { file: Seq<char>, line: nat, reason: Seq<char> },
    UnknownUser(Seq<char>),
    UnknownUid(u32),
    UnknownGroup(Seq<char>),
    UnknownGid(u32),
    UserUidMismatch { requested: u32, manager: u32 },
    UserGidMismatch { requested: u32, manager: u32 },
}

impl View for IdentityError {
    type V = IdentityErrorModel;

    open spec fn view(&self) -> IdentityErrorModel {
        match *self {
            IdentityError::Read { path, source } => IdentityErrorModel::Read {
                path: path@,
                source: source@,
            },
            IdentityError::InvalidEntry { file, line, reason } => IdentityErrorModel::InvalidEntry {
                file: file@,
                line: line as nat,
                reason: reason@,
            },
            IdentityError::UnknownUser(name) => IdentityErrorModel::UnknownUser(name@),
            IdentityError::UnknownUid(uid) => IdentityErrorModel::UnknownUid(uid),
            IdentityError::UnknownGroup(name) => IdentityErrorModel::UnknownGroup(name@),
            IdentityError::UnknownGid(gid) => IdentityErrorModel::UnknownGid(gid),
            IdentityError::UserUidMismatch { requested, manager } =>
                IdentityErrorModel::UserUidMismatch { requested, manager },
            IdentityError::UserGidMismatch { requested, manager } =>
                IdentityErrorModel::UserGidMismatch { requested, manager },
        }
    }
}

/// The text of an [`IdentityError`].
pub open spec fn identity_error_message(error: IdentityErrorModel) -> Seq<char> {
    match error {
        IdentityErrorModel::Read { path, source } => "failed to read "@ + path + ": "@ + source,
        IdentityErrorModel::InvalidEntry { file, line, reason } => "invalid "@ + file
            + " entry on line "@ + text::decimal(line) + ": "@ + reason,
        IdentityErrorModel::UnknownUser(name) => "unknown user "@ + name,
        IdentityErrorModel::UnknownUid(uid) => "unknown UID "@ + text::decimal(uid as nat),
        IdentityErrorModel::UnknownGroup(name) => "unknown group "@ + name,
        IdentityErrorModel::UnknownGid(gid) => "unknown GID "@ + text::decimal(gid as nat),
        IdentityErrorModel::UserUidMismatch { requested, manager } =>
            "user service cannot select UID "@ + text::decimal(requested as nat)
                + "; manager UID is "@ + text::decimal(manager as nat),
        IdentityErrorModel::UserGidMismatch { requested, manager } =>
            "user service cannot select GID "@ + text::decimal(requested as nat)
                + "; manager GID is "@ + text::decimal(manager as nat),
    }
}

impl IdentityError {
    /// The text of the error.
    pub fn message(&self) -> (r: String)
        ensures
            r@ == identity_error_message(self@),
    {
        match self {
            IdentityError::Read { path, source } => {
                let mut r = text::concat3("failed to read ", path.as_str(), ": ");
                r.append(source.as_str());
                r
            },
            IdentityError::InvalidEntry { file, line, reason } => {
                let number = text::decimal_string(*line as u64);
                let mut r = text::concat3("invalid ", file, " entry on line ");
                r.append(number.as_str());
                r.append(": ");
                r.append(reason.as_str());
                r
            },
            IdentityError::UnknownUser(name) => text::concat2("unknown user ", name.as_str()),
            IdentityError::UnknownUid(uid) => {
                let number = text::decimal_string(*uid as u64);
                text::concat2("unknown UID ", number.as_str())
            },
            IdentityError::UnknownGroup(name) => text::concat2("unknown group ", name.as_str()),
            IdentityError::UnknownGid(gid) => {
                let number = text::decimal_string(*gid as u64);
                text::concat2("unknown GID ", number.as_str())
            },
            IdentityError::UserUidMismatch { requested, manager } => {
                let first = text::decimal_string(*requested as u64);
                let second = text::decimal_string(*manager as u64);
                let mut r = text::concat3(
                    "user service cannot select UID ",
                    first.as_str(),
                    "; manager UID is ",
                );
                r.append(second.as_str());
                r
            },
            IdentityError::UserGidMismatch { requested, manager } => {
                let first = text::decimal_string(*requested as u64);
                let second = text::decimal_string(*manager as u64);
                let mut r = text::concat3(
                    "user service cannot select GID ",
                    first.as_str(),
                    "; manager GID is ",
                );
                r.append(second.as_str());
                r
            },
        }
    }
}

/// A malformed record.
pub open spec fn entry_error(file: Seq<char>, line: nat, reason: Seq<char>) -> IdentityErrorModel {
    IdentityErrorModel::InvalidEntry { file, line, reason }
}

/// The account that a line of the account file describes, or why it is refused.
pub open spec fn user_record(line: Seq<char>, number: nat) -> Result<
    UserModel,
    IdentityErrorModel,
> {
    let fields = text::split(line, ':');
    if fields.len() != 7 || fields[0].len() == 0 {
        Err(entry_error("passwd"@, number, "expected seven fields"@))
    } else if text::parse_u32(fields[2]) is None {
        Err(entry_error("passwd"@, number, "invalid UID"@))
    } else if text::parse_u32(fields[3]) is None {
        Err(entry_error("passwd"@, number, "invalid GID"@))
    } else {
        Ok(
            UserModel {
                name: fields[0],
                uid: text::parse_u32(fields[2])->0,
                gid: text::parse_u32(fields[3])->0,
                home: fields[5],
                shell: fields[6],
            },
        )
    }
}

/// The parts among the first `n` that are not empty.
pub open spec fn non_empty(parts: Seq<Seq<char>>, n: nat) -> Seq<Seq<char>>
    decreases n,
{
    if n == 0 {
        Seq::empty()
    } else if parts[n - 1].len() > 0 {
        non_empty(parts, (n - 1) as nat).push(parts[n - 1])
    } else {
        non_empty(parts, (n - 1) as nat)
    }
}

/// The group that a line of the group file describes, or why it is refused.
pub open spec fn group_record(line: Seq<char>, number: nat) -> Result<
    GroupRecordModel,
    IdentityErrorModel,
> {
    let fields = text::split(line, ':');
    if fields.len() != 4 || fields[0].len() == 0 {
        Err(entry_error("group"@, number, "expected four fields"@))
    } else if text::parse_u32(fields[2]) is None {
        Err(entry_error("group"@, number, "invalid GID"@))
    } else {
        let members = text::split(fields[3], ',');
        Ok(
            GroupRecordModel {
                name: fields[0],
                gid: text::parse_u32(fields[2])->0,
                members: non_empty(members, members.len()),
            },
        )
    }
}

/// Whether a line holds no record: it is blank or a comment.
pub open spec fn is_blank(line: Seq<char>) -> bool {
    text::trim(line).len() == 0 || text::begins_with(text::trim(line), '#')
}

/// The accounts of the first `n` lines, or why the first bad one is refused.
pub open spec fn passwd_result(lines: Seq<Seq<char>>, n: nat) -> Result<
    Seq<UserModel>,
    IdentityErrorModel,
>
    decreases n,
{
    if n == 0 {
        Ok(Seq::empty())
    } else {
        match passwd_result(lines, (n - 1) as nat) {
            Err(e) => Err(e),
            Ok(list) => if is_blank(lines[n - 1]) {
                Ok(list)
            } else {
                match user_record(text::trim(lines[n - 1]), n) {
                    Err(e) => Err(e),
                    Ok(user) => Ok(list.push(user)),
                }
            },
        }
    }
}

/// The groups of the first `n` lines, or why the first bad one is refused.
pub open spec fn group_result(lines: Seq<Seq<char>>, n: nat) -> Result<
    Seq<GroupRecordModel>,
    IdentityErrorModel,
>
    decreases n,
{
    if n == 0 {
        Ok(Seq::empty())
    } else {
        match group_result(lines, (n - 1) as nat) {
            Err(e) => Err(e),
            Ok(list) => if is_blank(lines[n - 1]) {
                Ok(list)
            } else {
                match group_record(text::trim(lines[n - 1]), n) {
                    Err(e) => Err(e),
                    Ok(group) => Ok(list.push(group)),
                }
            },
        }
    }
}

/// The accounts of an account file.
pub open spec fn passwd_file(source: Seq<char>) -> Result<Seq<UserModel>, IdentityErrorModel> {
    passwd_result(text::split(source, '\n'), text::split(source, '\n').len())
}

/// The groups of a group file.
pub open spec fn group_file(source: Seq<char>) -> Result<
    Seq<GroupRecordModel>,
    IdentityErrorModel,
> {
    group_result(text::split(source, '\n'), text::split(source, '\n').len())
}

proof fn passwd_result_tail(lines: Seq<Seq<char>>, n: nat)
    requires
        n <= lines.len(),
        passwd_result(lines, n) is Err,
    ensures
        passwd_result(lines, lines.len()) == passwd_result(lines, n),
    decreases lines.len() - n,
{
    if n < lines.len() {
        passwd_result_tail(lines, n + 1);
    }
}

proof fn group_result_tail(lines: Seq<Seq<char>>, n: nat)
    requires
        n <= lines.len(),
        group_result(lines, n) is Err,
    ensures
        group_result(lines, lines.len()) == group_result(lines, n),
    decreases lines.len() - n,
{
    if n < lines.len() {
        group_result_tail(lines, n + 1);
    }
}

fn invalid(file: &'static str, line: usize, reason: &str) -> (r: IdentityError)
    ensures
        r@ == entry_error(file@, line as nat, reason@),
{
    IdentityError::InvalidEntry { file, line, reason: text::owned(reason) }
}

fn parse_user(line: &str, number: usize) -> (r: Result<UserRecord, IdentityError>)
    ensures
        match r {
            Ok(user) => user_record(line@, number as nat) == Ok::<UserModel, IdentityErrorModel>(
                user@,
            ),
            Err(e) => user_record(line@, number as nat) == Err::<UserModel, IdentityErrorModel>(
                e@,
            ),
        },
{
    let fields = text::split_string(line, ':');
    let ghost parts = text::split(line@, ':');
    proof {
        assert(parts.len() == fields@.len());
        assert(forall|k: int| 0 <= k < fields@.len() ==> parts[k] == (#[trigger] fields@[k])@);
    }
    if fields.len() != 7 || fields[0].as_str().is_empty() {
        return Err(invalid("passwd", number, "expected seven fields"));
    }
    let uid = match text::parse_u32_string(fields[2].as_str()) {
        Some(uid) => uid,
        None => return Err(invalid("passwd", number, "invalid UID")),
    };
    let gid = match text::parse_u32_string(fields[3].as_str()) {
        Some(gid) => gid,
        None => return Err(invalid("passwd", number, "invalid GID")),
    };
    Ok(
        UserRecord {
            name: fields[0].clone(),
            uid,
            gid,
            home: fields[5].clone(),
            shell: fields[6].clone(),
        },
    )
}

fn parse_group_line(line: &str, number: usize) -> (r: Result<GroupRecord, IdentityError>)
    ensures
        match r {
            Ok(group) => group_record(line@, number as nat) == Ok::<
                GroupRecordModel,
                IdentityErrorModel,
            >(group@),
            Err(e) => group_record(line@, number as nat) == Err::<
                GroupRecordModel,
                IdentityErrorModel,
            >(e@),
        },
{
    let fields = text::split_string(line, ':');
    let ghost parts = text::split(line@, ':');
    proof {
        assert(parts.len() == fields@.len());
        assert(forall|k: int| 0 <= k < fields@.len() ==> parts[k] == (#[trigger] fields@[k])@);
    }
    if fields.len() != 4 || fields[0].as_str().is_empty() {
        return Err(invalid("group", number, "expected four fields"));
    }
    let gid = match text::parse_u32_string(fields[2].as_str()) {
        Some(gid) => gid,
        None => return Err(invalid("group", number, "invalid GID")),
    };
    let names = text::split_string(fields[3].as_str(), ',');
    let ghost all = text::texts(names@);
    let mut members: Vec<String> = Vec::new();
    let mut i: usize = 0;
    proof {
        assert(text::texts(members@) =~= Seq::empty());
    }
    while i < names.len()
        invariant
            all == text::texts(names@),
            i <= names@.len(),
            text::texts(members@) == non_empty(all, i as nat),
        decreases names@.len() - i,
    {
        let ghost before = members@;
        proof {
            assert(all[i as int] == names@[i as int]@);
        }
        if !names[i].as_str().is_empty() {
            members.push(names[i].clone());
            proof {
                assert(text::texts(members@) =~= text::texts(before).push(all[i as int]));
            }
        }
        i = i + 1;
    }
    Ok(GroupRecord { name: fields[0].clone(), gid, members })
}

/// Reads an account file.
pub fn parse_passwd(source: &str) -> (r: Result<Vec<UserRecord>, IdentityError>)
    ensures
        match r {
            Ok(list) => passwd_file(source@) == Ok::<Seq<UserModel>, IdentityErrorModel>(
                user_models(list@),
            ),
            Err(e) => passwd_file(source@) == Err::<Seq<UserModel>, IdentityErrorModel>(e@),
        },
{
    let lines = text::split_string(source, '\n');
    let ghost all = text::split(source@, '\n');
    let mut list: Vec<UserRecord> = Vec::new();
    let mut n: usize = 0;
    proof {
        assert(user_models(list@) =~= Seq::empty());
    }
    while n < lines.len()
        invariant
            all == text::texts(lines@),
            all == text::split(source@, '\n'),
            n <= lines@.len(),
            passwd_result(all, n as nat) == Ok::<Seq<UserModel>, IdentityErrorModel>(
                user_models(list@),
            ),
        decreases lines@.len() - n,
    {
        proof {
            assert(all[n as int] == lines@[n as int]@);
        }
        let line = text::trim_string(lines[n].as_str());
        if !line.as_str().is_empty() && !text::begins_with_char(line.as_str(), '#') {
            let ghost before = list@;
            match parse_user(line.as_str(), n + 1) {
                Ok(user) => {
                    let ghost record = user@;
                    list.push(user);
                    proof {
                        assert(user_models(list@) =~= user_models(before).push(record));
                    }
                },
                Err(e) => {
                    proof {
                        passwd_result_tail(all, n as nat + 1);
                    }
                    return Err(e);
                },
            }
        }
        n = n + 1;
    }
    Ok(list)
}

/// Reads a group file.
pub fn parse_group(source: &str) -> (r: Result<Vec<GroupRecord>, IdentityError>)
    ensures
        match r {
            Ok(list) => group_file(source@) == Ok::<Seq<GroupRecordModel>, IdentityErrorModel>(
                group_record_models(list@),
            ),
            Err(e) => group_file(source@) == Err::<Seq<GroupRecordModel>, IdentityErrorModel>(e@),
        },
{
    let lines = text::split_string(source, '\n');
    let ghost all = text::split(source@, '\n');
    let mut list: Vec<GroupRecord> = Vec::new();
    let mut n: usize = 0;
    proof {
        assert(group_record_models(list@) =~= Seq::empty());
    }
    while n < lines.len()
        invariant
            all == text::texts(lines@),
            all == text::split(source@, '\n'),
            n <= lines@.len(),
            group_result(all, n as nat) == Ok::<Seq<GroupRecordModel>, IdentityErrorModel>(
                group_record_models(list@),
            ),
        decreases lines@.len() - n,
    {
        proof {
            assert(all[n as int] == lines@[n as int]@);
        }
        let line = text::trim_string(lines[n].as_str());
        if !line.as_str().is_empty() && !text::begins_with_char(line.as_str(), '#') {
            let ghost before = list@;
            match parse_group_line(line.as_str(), n + 1) {
                Ok(group) => {
                    let ghost record = group@;
                    list.push(group);
                    proof {
                        assert(group_record_models(list@) =~= group_record_models(before).push(
                            record,
                        ));
                    }
                },
                Err(e) => {
                    proof {
                        group_result_tail(all, n as nat + 1);
                    }
                    return Err(e);
                },
            }
        }
        n = n + 1;
    }
    Ok(list)
}

/// The local accounts and groups.
#[derive(Debug)]
pub struct AccountDatabase {
    users: Vec<UserRecord>,
    groups: Vec<GroupRecord>,
}

/// What an [`AccountDatabase`] holds.
#[verifier::ext_equal]
pub struct AccountsModel {
    pub users: Seq<UserModel>,
    pub groups: Seq<GroupRecordModel>,
}

impl View for AccountDatabase {
    type V = AccountsModel;

    closed spec fn view(&self) -> AccountsModel {
        AccountsModel {
            users: user_models(self.users@),
            groups: group_record_models(self.groups@),
        }
    }
}

/// The identity and the account data that a process runs with.
#[derive(Debug, PartialEq, Eq)]
pub struct ResolvedAccount {
    pub name: String,
    pub home: String,
    pub shell: String,
    pub identity: ResolvedIdentity,
}

impl AccountsModel {
    /// The first account with a number.
    pub open spec fn user_by_uid(self, uid: u32) -> Option<int> {
        search::first_where(|i: int| self.users[i].uid == uid, self.users.len())
    }

    /// The first account with a name.
    pub open spec fn user_by_name(self, name: Seq<char>) -> Option<int> {
        search::first_where(|i: int| self.users[i].name == name, self.users.len())
    }

    /// The first group with a number.
    pub open spec fn group_by_gid(self, gid: u32) -> Option<int> {
        search::first_where(|i: int| self.groups[i].gid == gid, self.groups.len())
    }

    /// The first group with a name.
    pub open spec fn group_by_name(self, name: Seq<char>) -> Option<int> {
        search::first_where(|i: int| self.groups[i].name == name, self.groups.len())
    }

    /// The account that is named, or why there is none.
    pub open spec fn named_user(self, spec: IdentityModel) -> Result<int, IdentityErrorModel> {
        match spec {
            IdentityModel::Name(name) => match self.user_by_name(name) {
                Some(i) => Ok(i),
                None => Err(IdentityErrorModel::UnknownUser(name)),
            },
            IdentityModel::Id(uid) => match self.user_by_uid(uid) {
                Some(i) => Ok(i),
                None => Err(IdentityErrorModel::UnknownUid(uid)),
            },
        }
    }

    /// The group that is named, or why there is none.
    pub open spec fn named_group(self, spec: IdentityModel) -> Result<int, IdentityErrorModel> {
        match spec {
            IdentityModel::Name(name) => match self.group_by_name(name) {
                Some(i) => Ok(i),
                None => Err(IdentityErrorModel::UnknownGroup(name)),
            },
            IdentityModel::Id(gid) => match self.group_by_gid(gid) {
                Some(i) => Ok(i),
                None => Err(IdentityErrorModel::UnknownGid(gid)),
            },
        }
    }

    /// The account that a process runs with, or why there is none.
    pub open spec fn selected_user(self, selection: SelectionModel, manager_uid: u32) -> Result<
        int,
        IdentityErrorModel,
    > {
        match selection {
            SelectionModel::Explicit(spec) => self.named_user(spec),
            _ => self.named_user(IdentityModel::Id(manager_uid)),
        }
    }

    /// The primary group that a process runs with, or why there is none.
    pub open spec fn selected_gid(
        self,
        selection: SelectionModel,
        user: UserModel,
        manager_gid: u32,
    ) -> Result<u32, IdentityErrorModel> {
        match selection {
            SelectionModel::Manager => Ok(manager_gid),
            SelectionModel::UserPrimary => Ok(user.gid),
            SelectionModel::Explicit(spec) => match self.named_group(spec) {
                Ok(i) => Ok(self.groups[i].gid),
                Err(e) => Err(e),
            },
        }
    }

    /// The error of the first further group among the first `n` that is unknown.
    pub open spec fn further_error(self, specs: Seq<IdentityModel>, n: nat) -> Option<
        IdentityErrorModel,
    >
        decreases n,
    {
        if n == 0 {
            None
        } else {
            match self.further_error(specs, (n - 1) as nat) {
                Some(e) => Some(e),
                None => match self.named_group(specs[n - 1]) {
                    Ok(_) => None,
                    Err(e) => Some(e),
                },
            }
        }
    }

    /// Whether a group has an account as a member.
    pub open spec fn is_member_gid(self, name: Seq<char>, gid: u32) -> bool {
        exists|g: int|
            0 <= g < self.groups.len() && (#[trigger] self.groups[g]).gid == gid
                && self.groups[g].members.contains(name)
    }

    /// Whether one of the first `n` further groups has a number.
    pub open spec fn is_further_gid(self, specs: Seq<IdentityModel>, n: nat, gid: u32) -> bool {
        exists|k: int|
            0 <= k < n && (self.named_group(#[trigger] specs[k]) matches Ok(g)
                && self.groups[g].gid == gid)
    }

    /// Why the identity of a process cannot be had: its user, its group, a change of
    /// identity by a user service, or a further group.
    pub open spec fn resolve_error(
        self,
        process: ProcessModel,
        scope: ManagerScope,
        manager_uid: u32,
        manager_gid: u32,
    ) -> Option<IdentityErrorModel> {
        match self.selected_user(process.user, manager_uid) {
            Err(e) => Some(e),
            Ok(u) => match self.selected_gid(process.group, self.users[u], manager_gid) {
                Err(e) => Some(e),
                Ok(gid) => if scope == ManagerScope::User && self.users[u].uid != manager_uid {
                    Some(
                        IdentityErrorModel::UserUidMismatch {
                            requested: self.users[u].uid,
                            manager: manager_uid,
                        },
                    )
                } else if scope == ManagerScope::User && gid != manager_gid {
                    Some(
                        IdentityErrorModel::UserGidMismatch {
                            requested: gid,
                            manager: manager_gid,
                        },
                    )
                } else {
                    self.further_error(
                        process.supplementary_groups,
                        process.supplementary_groups.len(),
                    )
                },
            },
        }
    }

    /// Whether a process runs with a further group: one of the manager's where it runs
    /// as the manager, one that its account is a member of, or one that it names; never
    /// its primary group.
    pub open spec fn has_further_group(
        self,
        process: ProcessModel,
        manager_groups: Seq<u32>,
        user: UserModel,
        primary: u32,
        gid: u32,
    ) -> bool {
        gid != primary && ((process.user is Manager && manager_groups.contains(gid))
            || self.is_member_gid(user.name, gid) || self.is_further_gid(
            process.supplementary_groups,
            process.supplementary_groups.len(),
            gid,
        ))
    }
}

/// Whether numbers ascend strictly.
pub open spec fn ascending(list: Seq<u32>) -> bool {
    forall|i: int, j: int| 0 <= i < j < list.len() ==> list[i] < list[j]
}

fn insert_number(list: &mut Vec<u32>, x: u32)
    requires
        ascending(old(list)@),
    ensures
        ascending(final(list)@),
        forall|y: u32| #[trigger]
            final(list)@.contains(y) <==> old(list)@.contains(y) || y == x,
{
    let ghost before = list@;
    let mut p: usize = 0;
    while p < list.len() && list[p] < x
        invariant
            before == list@,
            p <= list@.len(),
            forall|k: int| 0 <= k < p ==> list@[k] < x,
        decreases list@.len() - p,
    {
        p = p + 1;
    }
    if p < list.len() && list[p] == x {
        proof {
            assert(before.contains(x));
        }
        return ;
    }
    list.insert(p, x);
    proof {
        let after = list@;
        assert(after =~= before.insert(p as int, x));
        assert forall|y: u32| #[trigger] after.contains(y) <==> before.contains(y) || y == x by {
            if after.contains(y) {
                let k = choose|k: int| 0 <= k < after.len() && after[k] == y;
                if k < p {
                    assert(before[k] == y);
                } else if k > p {
                    assert(before[k - 1] == y);
                }
            }
            if before.contains(y) {
                let k = choose|k: int| 0 <= k < before.len() && before[k] == y;
                if k < p {
                    assert(after[k] == y);
                } else {
                    assert(after[k + 1] == y);
                }
            }
            assert(after[p as int] == x);
        }
        assert forall|i: int, j: int| 0 <= i < j < after.len() implies after[i] < after[j] by {
            if i < p && j > p {
                assert(before[i] < before[j - 1]);
            } else if i > p {
                assert(before[i - 1] < before[j - 1]);
            } else if i < p && j < p {
                assert(before[i] < before[j]);
            } else if i == p {
                assert(before[p as int] <= before[j - 1]);
            }
        }
    }
}

fn remove_number(list: &Vec<u32>, x: u32) -> (r: Vec<u32>)
    requires
        ascending(list@),
    ensures
        ascending(r@),
        forall|y: u32| #[trigger] r@.contains(y) <==> list@.contains(y) && y != x,
{
    let mut r: Vec<u32> = Vec::new();
    let mut i: usize = 0;
    while i < list.len()
        invariant
            ascending(list@),
            i <= list@.len(),
            ascending(r@),
            forall|k: int|
                0 <= k < r@.len() ==> #[trigger] r@[k] != x && list@.take(i as int).contains(
                    r@[k],
                ),
            forall|y: u32|
                #![trigger list@.take(i as int).contains(y)]
                list@.take(i as int).contains(y) && y != x ==> r@.contains(y),
        decreases list@.len() - i,
    {
        let ghost before = r@;
        let ghost head = list@.take(i as int);
        let ghost next = list@.take(i + 1);
        proof {
            assert(next =~= head.push(list@[i as int]));
            assert forall|k: int| 0 <= k < before.len() implies #[trigger] before[k]
                < list@[i as int] by {
                let q = choose|q: int| 0 <= q < head.len() && head[q] == before[k];
                assert(list@[q] < list@[i as int]);
            }
        }
        if list[i] != x {
            r.push(list[i]);
        }
        proof {
            assert forall|k: int| 0 <= k < r@.len() implies #[trigger] r@[k] != x
                && next.contains(r@[k]) by {
                if k < before.len() {
                    assert(r@[k] == before[k]);
                    let q = choose|q: int| 0 <= q < head.len() && head[q] == before[k];
                    assert(next[q] == before[k]);
                } else {
                    assert(next[i as int] == r@[k]);
                }
            }
            assert forall|y: u32| #![trigger next.contains(y)] next.contains(y) && y
                != x implies r@.contains(y) by {
                let q = choose|q: int| 0 <= q < next.len() && next[q] == y;
                if q < i {
                    assert(head[q] == y);
                    assert(head.contains(y));
                    let k = choose|k: int| 0 <= k < before.len() && before[k] == y;
                    assert(r@[k] == y);
                } else {
                    assert(r@[before.len() as int] == y);
                }
            }
        }
        i = i + 1;
    }
    proof {
        assert(list@.take(list@.len() as int) =~= list@);
        assert forall|y: u32| #[trigger] r@.contains(y) <==> list@.contains(y) && y != x by {
            if r@.contains(y) {
                let k = choose|k: int| 0 <= k < r@.len() && r@[k] == y;
                assert(r@[k] != x);
            }
            if list@.contains(y) {
                assert(list@.take(list@.len() as int).contains(y));
            }
        }
    }
    r
}

impl AccountDatabase {
    /// The accounts of an account file and a group file.
    pub fn parse(passwd: &str, group: &str) -> (r: Result<AccountDatabase, IdentityError>)
        ensures
            match r {
                Ok(db) => passwd_file(passwd@) == Ok::<Seq<UserModel>, IdentityErrorModel>(
                    db@.users,
                ) && group_file(group@) == Ok::<Seq<GroupRecordModel>, IdentityErrorModel>(
                    db@.groups,
                ),
                Err(e) => (match passwd_file(passwd@) {
                    Err(first) => e@ == first,
                    Ok(_) => group_file(group@) == Err::<
                        Seq<GroupRecordModel>,
                        IdentityErrorModel,
                    >(e@),
                }),
            },
    {
        let users = match parse_passwd(passwd) {
            Ok(users) => users,
            Err(e) => return Err(e),
        };
        let groups = match parse_group(group) {
            Ok(groups) => groups,
            Err(e) => return Err(e),
        };
        Ok(AccountDatabase { users, groups })
    }

    fn user_by_uid(&self, uid: u32) -> (r: Option<usize>)
        ensures
            match r {
                Some(i) => i < self@.users.len() && self@.user_by_uid(uid) == Some(i as int),
                None => self@.user_by_uid(uid) is None,
            },
    {
        let ghost holds = |i: int| self@.users[i].uid == uid;
        let mut i: usize = 0;
        while i < self.users.len()
            invariant
                holds == (|i: int| self@.users[i].uid == uid),
                self@.users.len() == self.users@.len(),
                i <= self.users@.len(),
                forall|k: int| 0 <= k < i ==> !#[trigger] holds(k),
            decreases self.users@.len() - i,
        {
            proof {
                assert(self@.users[i as int] == self.users@[i as int]@);
            }
            if self.users[i].uid == uid {
                proof {
                    search::first_where_is(holds, self@.users.len(), i as int);
                }
                return Some(i);
            }
            i = i + 1;
        }
        proof {
            search::first_where_none(holds, self@.users.len());
        }
        None
    }

    fn user_by_name(&self, name: &String) -> (r: Option<usize>)
        ensures
            match r {
                Some(i) => i < self@.users.len() && self@.user_by_name(name@) == Some(i as int),
                None => self@.user_by_name(name@) is None,
            },
    {
        let ghost holds = |i: int| self@.users[i].name == name@;
        let mut i: usize = 0;
        while i < self.users.len()
            invariant
                holds == (|i: int| self@.users[i].name == name@),
                self@.users.len() == self.users@.len(),
                i <= self.users@.len(),
                forall|k: int| 0 <= k < i ==> !#[trigger] holds(k),
            decreases self.users@.len() - i,
        {
            proof {
                assert(self@.users[i as int] == self.users@[i as int]@);
            }
            if self.users[i].name == *name {
                proof {
                    search::first_where_is(holds, self@.users.len(), i as int);
                }
                return Some(i);
            }
            i = i + 1;
        }
        proof {
            search::first_where_none(holds, self@.users.len());
        }
        None
    }

    fn group_by_gid(&self, gid: u32) -> (r: Option<usize>)
        ensures
            match r {
                Some(i) => i < self@.groups.len() && self@.group_by_gid(gid) == Some(i as int),
                None => self@.group_by_gid(gid) is None,
            },
    {
        let ghost holds = |i: int| self@.groups[i].gid == gid;
        let mut i: usize = 0;
        while i < self.groups.len()
            invariant
                holds == (|i: int| self@.groups[i].gid == gid),
                self@.groups.len() == self.groups@.len(),
                i <= self.groups@.len(),
                forall|k: int| 0 <= k < i ==> !#[trigger] holds(k),
            decreases self.groups@.len() - i,
        {
            proof {
                assert(self@.groups[i as int] == self.groups@[i as int]@);
            }
            if self.groups[i].gid == gid {
                proof {
                    search::first_where_is(holds, self@.groups.len(), i as int);
                }
                return Some(i);
            }
            i = i + 1;
        }
        proof {
            search::first_where_none(holds, self@.groups.len());
        }
        None
    }

    fn group_by_name(&self, name: &String) -> (r: Option<usize>)
        ensures
            match r {
                Some(i) => i < self@.groups.len() && self@.group_by_name(name@) == Some(i as int),
                None => self@.group_by_name(name@) is None,
            },
    {
        let ghost holds = |i: int| self@.groups[i].name == name@;
        let mut i: usize = 0;
        while i < self.groups.len()
            invariant
                holds == (|i: int| self@.groups[i].name == name@),
                self@.groups.len() == self.groups@.len(),
                i <= self.groups@.len(),
                forall|k: int| 0 <= k < i ==> !#[trigger] holds(k),
            decreases self.groups@.len() - i,
        {
            proof {
                assert(self@.groups[i as int] == self.groups@[i as int]@);
            }
            if self.groups[i].name == *name {
                proof {
                    search::first_where_is(holds, self@.groups.len(), i as int);
                }
                return Some(i);
            }
            i = i + 1;
        }
        proof {
            search::first_where_none(holds, self@.groups.len());
        }
        None
    }

    fn resolve_user(&self, spec: &IdentitySpec) -> (r: Result<usize, IdentityError>)
        ensures
            match r {
                Ok(i) => i < self@.users.len() && self@.named_user(spec@) == Ok::<
                    int,
                    IdentityErrorModel,
                >(i as int),
                Err(e) => self@.named_user(spec@) == Err::<int, IdentityErrorModel>(e@),
            },
    {
        match spec {
            IdentitySpec::Name(name) => match self.user_by_name(name) {
                Some(i) => Ok(i),
                None => Err(IdentityError::UnknownUser(name.clone())),
            },
            IdentitySpec::Id(uid) => match self.user_by_uid(*uid) {
                Some(i) => Ok(i),
                None => Err(IdentityError::UnknownUid(*uid)),
            },
        }
    }

    fn resolve_group(&self, spec: &IdentitySpec) -> (r: Result<usize, IdentityError>)
        ensures
            match r {
                Ok(i) => i < self@.groups.len() && self@.named_group(spec@) == Ok::<
                    int,
                    IdentityErrorModel,
                >(i as int),
                Err(e) => self@.named_group(spec@) == Err::<int, IdentityErrorModel>(e@),
            },
    {
        match spec {
            IdentitySpec::Name(name) => match self.group_by_name(name) {
                Some(i) => Ok(i),
                None => Err(IdentityError::UnknownGroup(name.clone())),
            },
            IdentitySpec::Id(gid) => match self.group_by_gid(*gid) {
                Some(i) => Ok(i),
                None => Err(IdentityError::UnknownGid(*gid)),
            },
        }
    }

    fn is_member(&self, g: usize, name: &String) -> (r: bool)
        requires
            g < self@.groups.len(),
        ensures
            r == self@.groups[g as int].members.contains(name@),
    {
        let members = &self.groups[g].members;
        let ghost all = self@.groups[g as int].members;
        proof {
            assert(self@.groups[g as int] == self.groups@[g as int]@);
        }
        let mut i: usize = 0;
        while i < members.len()
            invariant
                all == text::texts(members@),
                all == self@.groups[g as int].members,
                i <= members@.len(),
                forall|k: int| 0 <= k < i ==> #[trigger] all[k] != name@,
            decreases members@.len() - i,
        {
            proof {
                assert(all[i as int] == members@[i as int]@);
            }
            if members[i] == *name {
                proof {
                    assert(all.contains(name@));
                }
                return true;
            }
            i = i + 1;
        }
        false
    }

    /// The identity of a process and the account data that go with it. A user service
    /// keeps the manager's own user and group.
    pub fn resolve(
        &self,
        process: &ProcessDefinition,
        scope: ManagerScope,
        manager: &ResolvedIdentity,
    ) -> (r: Result<ResolvedAccount, IdentityError>)
        ensures
            match r {
                Ok(account) => {
                    &&& self@.resolve_error(process@, scope, manager.uid, manager.gid) is None
                    &&& self@.selected_user(process@.user, manager.uid) matches Ok(u)
                    &&& self@.selected_gid(process@.group, self@.users[u], manager.gid) == Ok::<
                        u32,
                        IdentityErrorModel,
                    >(account.identity.gid)
                    &&& process@.group is Manager ==> account.identity.gid == manager.gid
                    &&& process@.group is UserPrimary ==> account.identity.gid
                        == self@.users[u].gid
                    &&& process@.group matches SelectionModel::Explicit(spec) ==> is_group_named(
                        self@,
                        spec,
                        account.identity.gid,
                    )
                    &&& is_user_of(self@, process@.user, manager.uid, u)
                    &&& account.name@ == self@.users[u].name
                    &&& account.home@ == self@.users[u].home
                    &&& account.shell@ == self@.users[u].shell
                    &&& account.identity.uid == self@.users[u].uid
                    &&& ascending(account.identity.supplementary_groups@)
                    &&& forall|gid: u32| #[trigger]
                        account.identity.supplementary_groups@.contains(gid)
                            <==> self@.has_further_group(
                            process@,
                            manager.supplementary_groups@,
                            self@.users[u],
                            account.identity.gid,
                            gid,
                        )
                    &&& scope == ManagerScope::User ==> account.identity.uid == manager.uid
                        && account.identity.gid == manager.gid
                },
                Err(e) => self@.resolve_error(process@, scope, manager.uid, manager.gid) == Some(
                    e@,
                ),
            },
    {
        let u = match &process.user {
            IdentitySelection::Explicit(spec) => match self.resolve_user(spec) {
                Ok(u) => u,
                Err(e) => return Err(e),
            },
            _ => match self.user_by_uid(manager.uid) {
                Some(u) => u,
                None => return Err(IdentityError::UnknownUid(manager.uid)),
            },
        };
        let user = &self.users[u];
        proof {
            assert(self@.users[u as int] == self.users@[u as int]@);
        }
        let gid = match &process.group {
            IdentitySelection::Manager => manager.gid,
            IdentitySelection::UserPrimary => user.gid,
            IdentitySelection::Explicit(spec) => match self.resolve_group(spec) {
                Ok(g) => {
                    proof {
                        assert(self@.groups[g as int] == self.groups@[g as int]@);
                    }
                    self.groups[g].gid
                },
                Err(e) => return Err(e),
            },
        };
        if scope == ManagerScope::User && user.uid != manager.uid {
            return Err(
                IdentityError::UserUidMismatch { requested: user.uid, manager: manager.uid },
            );
        }
        if scope == ManagerScope::User && gid != manager.gid {
            return Err(IdentityError::UserGidMismatch { requested: gid, manager: manager.gid });
        }
        let mut numbers: Vec<u32> = Vec::new();
        let as_manager = match &process.user {
            IdentitySelection::Manager => true,
            _ => false,
        };
        if as_manager {
            let mut i: usize = 0;
            while i < manager.supplementary_groups.len()
                invariant
                    i <= manager.supplementary_groups@.len(),
                    ascending(numbers@),
                    forall|y: u32| #[trigger]
                        numbers@.contains(y) <==> exists|k: int|
                            0 <= k < i && manager.supplementary_groups@[k] == y,
                decreases manager.supplementary_groups@.len() - i,
            {
                let ghost before = numbers@;
                insert_number(&mut numbers, manager.supplementary_groups[i]);
                proof {
                    assert forall|y: u32| #[trigger] numbers@.contains(y) <==> exists|k: int|
                        0 <= k < i + 1 && manager.supplementary_groups@[k] == y by {
                        if before.contains(y) {
                            let k = choose|k: int|
                                0 <= k < i && manager.supplementary_groups@[k] == y;
                            assert(manager.supplementary_groups@[k] == y);
                        }
                        if manager.supplementary_groups@[i as int] == y {
                            assert(numbers@.contains(y));
                        }
                    }
                }
                i = i + 1;
            }
        }
        let ghost inherited = numbers@;
        proof {
            assert forall|y: u32| #[trigger] inherited.contains(y) <==> process@.user is Manager
                && manager.supplementary_groups@.contains(y) by {
                if as_manager && manager.supplementary_groups@.contains(y) {
                    let k = choose|k: int|
                        0 <= k < manager.supplementary_groups@.len()
                            && manager.supplementary_groups@[k] == y;
                    assert(manager.supplementary_groups@[k] == y);
                }
            }
        }
        let mut g: usize = 0;
        while g < self.groups.len()
            invariant
                self@.groups.len() == self.groups@.len(),
                g <= self.groups@.len(),
                ascending(numbers@),
                forall|y: u32| #[trigger]
                    numbers@.contains(y) <==> inherited.contains(y) || exists|k: int|
                        0 <= k < g && (#[trigger] self@.groups[k]).gid == y
                            && self@.groups[k].members.contains(user.name@),
            decreases self.groups@.len() - g,
        {
            let ghost before = numbers@;
            proof {
                assert(self@.groups[g as int] == self.groups@[g as int]@);
            }
            if self.is_member(g, &user.name) {
                insert_number(&mut numbers, self.groups[g].gid);
            }
            proof {
                assert forall|y: u32| #[trigger] numbers@.contains(y) <==> inherited.contains(y)
                    || exists|k: int|
                    0 <= k < g + 1 && (#[trigger] self@.groups[k]).gid == y
                        && self@.groups[k].members.contains(user.name@) by {
                    if before.contains(y) && !inherited.contains(y) {
                        let k = choose|k: int|
                            0 <= k < g && (#[trigger] self@.groups[k]).gid == y
                                && self@.groups[k].members.contains(user.name@);
                        assert(self@.groups[k].gid == y);
                    }
                }
            }
            g = g + 1;
        }
        let ghost with_members = numbers@;
        let ghost specs = process@.supplementary_groups;
        let mut k: usize = 0;
        while k < process.supplementary_groups.len()
            invariant
                specs == model::identities(process.supplementary_groups@),
                k <= process.supplementary_groups@.len(),
                ascending(numbers@),
                self@.further_error(specs, k as nat) is None,
                forall|y: u32| #[trigger]
                    numbers@.contains(y) <==> with_members.contains(y) || self@.is_further_gid(
                        specs,
                        k as nat,
                        y,
                    ),
                self@.resolve_error(process@, scope, manager.uid, manager.gid)
                    == self@.further_error(specs, specs.len()),
            decreases process.supplementary_groups@.len() - k,
        {
            let ghost before = numbers@;
            proof {
                assert(specs[k as int] == process.supplementary_groups@[k as int]@);
            }
            match self.resolve_group(&process.supplementary_groups[k]) {
                Ok(g) => {
                    proof {
                        assert(self@.groups[g as int] == self.groups@[g as int]@);
                    }
                    insert_number(&mut numbers, self.groups[g].gid);
                    proof {
                        assert forall|y: u32| #[trigger] numbers@.contains(y)
                            <==> with_members.contains(y) || self@.is_further_gid(
                            specs,
                            k as nat + 1,
                            y,
                        ) by {
                            if self@.is_further_gid(specs, k as nat, y) {
                                let q = choose|q: int|
                                    0 <= q < k && (self@.named_group(#[trigger] specs[q]) matches Ok(
                                        g,
                                    ) && self@.groups[g].gid == y);
                                assert(self@.named_group(specs[q]) is Ok);
                            }
                            if self@.is_further_gid(specs, k as nat + 1, y) {
                                let q = choose|q: int|
                                    0 <= q < k + 1 && (self@.named_group(
                                        #[trigger] specs[q],
                                    ) matches Ok(g) && self@.groups[g].gid == y);
                                if q < k {
                                    assert(self@.is_further_gid(specs, k as nat, y));
                                }
                            }
                            if y == self@.groups[g as int].gid {
                                assert(self@.named_group(specs[k as int]) is Ok);
                            }
                        }
                    }
                },
                Err(e) => {
                    proof {
                        further_error_tail(self@, specs, k as nat + 1);
                    }
                    return Err(e);
                },
            }
            k = k + 1;
        }
        let supplementary_groups = remove_number(&numbers, gid);
        proof {
            assert forall|y: u32| #[trigger] supplementary_groups@.contains(y)
                <==> self@.has_further_group(
                process@,
                manager.supplementary_groups@,
                self@.users[u as int],
                gid,
                y,
            ) by {
                assert(numbers@.contains(y) <==> with_members.contains(y)
                    || self@.is_further_gid(specs, specs.len(), y));
                assert(with_members.contains(y) <==> inherited.contains(y)
                    || self@.is_member_gid(user.name@, y));
            }
        }
        proof {
            resolve_law(
                self@,
                process@,
                scope,
                manager.uid,
                manager.gid,
                manager.supplementary_groups@,
                0,
            );
        }
        Ok(
            ResolvedAccount {
                name: user.name.clone(),
                home: user.home.clone(),
                shell: user.shell.clone(),
                identity: ResolvedIdentity { uid: user.uid, gid, supplementary_groups },
            },
        )
    }
}

proof fn further_error_tail(db: AccountsModel, specs: Seq<IdentityModel>, n: nat)
    requires
        n <= specs.len(),
        db.further_error(specs, n) is Some,
    ensures
        db.further_error(specs, specs.len()) == db.further_error(specs, n),
    decreases specs.len() - n,
{
    if n < specs.len() {
        further_error_tail(db, specs, n + 1);
    }
}

/// The identity of a process out of its numbers: its further groups ascend, and none occurs
/// twice.
pub fn process_identity(uid: u32, gid: u32, groups: &Vec<u32>) -> (r: ResolvedIdentity)
    ensures
        r.uid == uid,
        r.gid == gid,
        ascending(r.supplementary_groups@),
        forall|g: u32| #[trigger] r.supplementary_groups@.contains(g) <==> groups@.contains(g),
{
    let mut list: Vec<u32> = Vec::new();
    let mut i: usize = 0;
    while i < groups.len()
        invariant
            i <= groups@.len(),
            ascending(list@),
            forall|g: u32| #[trigger] list@.contains(g) <==> groups@.take(i as int).contains(g),
        decreases groups@.len() - i,
    {
        let ghost before = list@;
        let ghost head = groups@.take(i as int);
        let ghost next = groups@.take(i + 1);
        insert_number(&mut list, groups[i]);
        proof {
            assert(next =~= head.push(groups@[i as int]));
            assert forall|g: u32| #[trigger] list@.contains(g) <==> next.contains(g) by {
                assert(before.contains(g) <==> head.contains(g));
                if head.contains(g) {
                    let k = choose|k: int| 0 <= k < head.len() && head[k] == g;
                    assert(next[k] == g);
                }
                assert(next[i as int] == groups@[i as int]);
                if next.contains(g) {
                    let k = choose|k: int| 0 <= k < next.len() && next[k] == g;
                    if k < i {
                        assert(head[k] == g);
                    }
                }
            }
        }
        i = i + 1;
    }
    proof {
        assert(groups@.take(groups@.len() as int) =~= groups@);
    }
    ResolvedIdentity { uid, gid, supplementary_groups: list }
}

/// Whether an account is the first one that a service names as its user, or the first one
/// with the manager's number where it names none.
pub open spec fn is_user_of(
    db: AccountsModel,
    selection: SelectionModel,
    manager_uid: u32,
    u: int,
) -> bool {
    &&& 0 <= u < db.users.len()
    &&& match selection {
        SelectionModel::Explicit(IdentityModel::Name(name)) => db.users[u].name == name && forall|
            v: int,
        |
            0 <= v < u ==> (#[trigger] db.users[v]).name != name,
        SelectionModel::Explicit(IdentityModel::Id(uid)) => db.users[u].uid == uid && forall|
            v: int,
        |
            0 <= v < u ==> (#[trigger] db.users[v]).uid != uid,
        _ => db.users[u].uid == manager_uid && forall|v: int|
            0 <= v < u ==> (#[trigger] db.users[v]).uid != manager_uid,
    }
}

/// Whether a number is that of the group that a service runs in: the manager's, the primary
/// group of its user, or that of the first group that it names.
pub open spec fn is_group_of(
    db: AccountsModel,
    selection: SelectionModel,
    user: UserModel,
    manager_gid: u32,
    gid: u32,
) -> bool {
    match selection {
        SelectionModel::Manager => gid == manager_gid,
        SelectionModel::UserPrimary => gid == user.gid,
        SelectionModel::Explicit(spec) => is_group_named(db, spec, gid),
    }
}

/// Whether a number is that of the first group with a name, or of a group with that number.
pub open spec fn is_group_named(db: AccountsModel, spec: IdentityModel, gid: u32) -> bool {
    exists|g: int|
        0 <= g < db.groups.len() && (#[trigger] db.groups[g]).gid == gid && match spec {
            IdentityModel::Name(name) => db.groups[g].name == name && forall|h: int|
                0 <= h < g ==> (#[trigger] db.groups[h]).name != name,
            IdentityModel::Id(id) => gid == id,
        }
}

/// Whether there is a group with a name or a number.
pub open spec fn group_known(db: AccountsModel, spec: IdentityModel) -> bool {
    exists|gid: u32| #[trigger] is_group_named(db, spec, gid)
}

proof fn named_group_law(db: AccountsModel, spec: IdentityModel)
    ensures
        match db.named_group(spec) {
            Ok(g) => 0 <= g < db.groups.len() && forall|gid: u32| #[trigger]
                is_group_named(db, spec, gid) <==> gid == db.groups[g].gid,
            Err(e) => (forall|gid: u32| !#[trigger] is_group_named(db, spec, gid)) && match spec {
                IdentityModel::Name(name) => e == IdentityErrorModel::UnknownGroup(name),
                IdentityModel::Id(id) => e == IdentityErrorModel::UnknownGid(id),
            },
        },
{
    match spec {
        IdentityModel::Name(name) => {
            let holds = |i: int| db.groups[i].name == name;
            search::first_where_law(holds, db.groups.len());
            if let Some(g) = db.group_by_name(name) {
                assert(holds(g));
                assert forall|h: int| 0 <= h < g implies (#[trigger] db.groups[h]).name != name by {
                    assert(!holds(h));
                }
                assert forall|gid: u32| #[trigger] is_group_named(db, spec, gid) implies gid
                    == db.groups[g].gid by {
                    let x = choose|x: int|
                        0 <= x < db.groups.len() && (#[trigger] db.groups[x]).gid == gid
                            && db.groups[x].name == name && forall|h: int|
                            0 <= h < x ==> (#[trigger] db.groups[h]).name != name;
                    assert(db.groups[g].name == name);
                    assert(x == g);
                }
            } else {
                assert forall|gid: u32| !#[trigger] is_group_named(db, spec, gid) by {
                    if is_group_named(db, spec, gid) {
                        let x = choose|x: int|
                            0 <= x < db.groups.len() && (#[trigger] db.groups[x]).gid == gid
                                && db.groups[x].name == name;
                        assert(!holds(x));
                    }
                }
            }
        },
        IdentityModel::Id(id) => {
            let holds = |i: int| db.groups[i].gid == id;
            search::first_where_law(holds, db.groups.len());
            if let Some(g) = db.group_by_gid(id) {
                assert(holds(g));
            } else {
                assert forall|gid: u32| !#[trigger] is_group_named(db, spec, gid) by {
                    if is_group_named(db, spec, gid) {
                        let x = choose|x: int|
                            0 <= x < db.groups.len() && (#[trigger] db.groups[x]).gid == gid;
                        assert(!holds(x));
                    }
                }
            }
        },
    }
}

proof fn selected_user_law(db: AccountsModel, selection: SelectionModel, manager_uid: u32)
    ensures
        match db.selected_user(selection, manager_uid) {
            Ok(u) => is_user_of(db, selection, manager_uid, u),
            Err(e) => (forall|u: int| !#[trigger] is_user_of(db, selection, manager_uid, u))
                && match selection {
                SelectionModel::Explicit(IdentityModel::Name(name)) => e
                    == IdentityErrorModel::UnknownUser(name),
                SelectionModel::Explicit(IdentityModel::Id(uid)) => e
                    == IdentityErrorModel::UnknownUid(uid),
                _ => e == IdentityErrorModel::UnknownUid(manager_uid),
            },
        },
{
    let spec = match selection {
        SelectionModel::Explicit(spec) => spec,
        _ => IdentityModel::Id(manager_uid),
    };
    match spec {
        IdentityModel::Name(name) => {
            let holds = |i: int| db.users[i].name == name;
            search::first_where_law(holds, db.users.len());
            if let Some(u) = db.user_by_name(name) {
                assert(holds(u));
                assert forall|v: int| 0 <= v < u implies (#[trigger] db.users[v]).name != name by {
                    assert(!holds(v));
                }
            } else {
                assert forall|u: int| !#[trigger] is_user_of(db, selection, manager_uid, u) by {
                    if 0 <= u < db.users.len() {
                        assert(!holds(u));
                    }
                }
            }
        },
        IdentityModel::Id(uid) => {
            let holds = |i: int| db.users[i].uid == uid;
            search::first_where_law(holds, db.users.len());
            if let Some(u) = db.user_by_uid(uid) {
                assert(holds(u));
                assert forall|v: int| 0 <= v < u implies (#[trigger] db.users[v]).uid != uid by {
                    assert(!holds(v));
                }
            } else {
                assert forall|u: int| !#[trigger] is_user_of(db, selection, manager_uid, u) by {
                    if 0 <= u < db.users.len() {
                        assert(!holds(u));
                    }
                }
            }
        },
    }
}

/// Who a service runs as: as the user that it names or as the manager's, in the group that
/// it names, its user's or the manager's; and in exactly the further groups that its user
/// is a member of, that it names, and, where it names no user, that the manager has, without
/// its primary one.
pub proof fn resolve_law(
    db: AccountsModel,
    process: ProcessModel,
    scope: ManagerScope,
    manager_uid: u32,
    manager_gid: u32,
    manager_groups: Seq<u32>,
    further: u32,
)
    requires
        db.resolve_error(process, scope, manager_uid, manager_gid) is None,
    ensures
        db.selected_user(process.user, manager_uid) matches Ok(u) && is_user_of(
            db,
            process.user,
            manager_uid,
            u,
        ) && (db.selected_gid(process.group, db.users[u], manager_gid) matches Ok(gid) && {
            &&& is_group_of(db, process.group, db.users[u], manager_gid, gid)
            &&& scope == ManagerScope::User ==> db.users[u].uid == manager_uid && gid
                == manager_gid
            &&& db.has_further_group(process, manager_groups, db.users[u], gid, further) <==> {
                &&& further != gid
                &&& {
                    ||| process.user is Manager && manager_groups.contains(further)
                    ||| exists|g: int|
                        0 <= g < db.groups.len() && (#[trigger] db.groups[g]).gid == further
                            && db.groups[g].members.contains(db.users[u].name)
                    ||| exists|k: int|
                        0 <= k < process.supplementary_groups.len() && is_group_named(
                            db,
                            #[trigger] process.supplementary_groups[k],
                            further,
                        )
                }
            }
        }),
        forall|k: int|
            0 <= k < process.supplementary_groups.len() ==> group_known(
                db,
                #[trigger] process.supplementary_groups[k],
            ),
{
    selected_user_law(db, process.user, manager_uid);
    if let SelectionModel::Explicit(spec) = process.group {
        named_group_law(db, spec);
    }
    let specs = process.supplementary_groups;
    further_known(db, specs, specs.len());
    assert forall|k: int| 0 <= k < specs.len() implies {
        &&& db.named_group(#[trigger] specs[k]) matches Ok(g)
        &&& is_group_named(db, specs[k], db.groups[g].gid)
        &&& is_group_named(db, specs[k], further) == (db.groups[g].gid == further)
    } by {
        named_group_law(db, specs[k]);
    }
}

proof fn further_known(db: AccountsModel, specs: Seq<IdentityModel>, n: nat)
    requires
        n <= specs.len(),
        db.further_error(specs, n) is None,
    ensures
        forall|k: int| 0 <= k < n ==> db.named_group(#[trigger] specs[k]) is Ok,
    decreases n,
{
    if n > 0 {
        further_known(db, specs, (n - 1) as nat);
    }
}

proof fn further_unknown(db: AccountsModel, specs: Seq<IdentityModel>, n: nat)
    requires
        n <= specs.len(),
        db.further_error(specs, n) is Some,
    ensures
        exists|k: int|
            0 <= k < n && db.named_group(#[trigger] specs[k]) == Err::<int, IdentityErrorModel>(
                db.further_error(specs, n)->0,
            ),
    decreases n,
{
    if n > 0 {
        if db.further_error(specs, (n - 1) as nat) is Some {
            further_unknown(db, specs, (n - 1) as nat);
        } else {
            assert(db.named_group(specs[n - 1]) is Err);
        }
    }
}

/// When an identity can be had: exactly where the user is known, and so are the group and
/// every further group, and the service of a user manager keeps its user and its group.
pub proof fn resolve_accept_law(
    db: AccountsModel,
    process: ProcessModel,
    scope: ManagerScope,
    manager_uid: u32,
    manager_gid: u32,
)
    ensures
        db.resolve_error(process, scope, manager_uid, manager_gid) is None <==> {
            &&& exists|u: int, gid: u32|
                {
                    &&& #[trigger] is_user_of(db, process.user, manager_uid, u)
                    &&& #[trigger] is_group_of(
                        db,
                        process.group,
                        db.users[u],
                        manager_gid,
                        gid,
                    )
                    &&& scope == ManagerScope::User ==> db.users[u].uid == manager_uid && gid
                        == manager_gid
                }
            &&& forall|k: int|
                0 <= k < process.supplementary_groups.len() ==> group_known(
                    db,
                    #[trigger] process.supplementary_groups[k],
                )
        },
{
    selected_user_law(db, process.user, manager_uid);
    if let SelectionModel::Explicit(spec) = process.group {
        named_group_law(db, spec);
    }
    let specs = process.supplementary_groups;
    assert forall|k: int| 0 <= k < specs.len() implies group_known(db, #[trigger] specs[k])
        == (db.named_group(specs[k]) is Ok) by {
        named_group_law(db, specs[k]);
        if let Ok(g) = db.named_group(specs[k]) {
            assert(is_group_named(db, specs[k], db.groups[g].gid));
        }
    }
    if db.further_error(specs, specs.len()) is Some {
        further_unknown(db, specs, specs.len());
    } else {
        further_known(db, specs, specs.len());
    }
    if let Ok(u) = db.selected_user(process.user, manager_uid) {
        assert(is_user_of(db, process.user, manager_uid, u));
        if let Ok(gid) = db.selected_gid(process.group, db.users[u], manager_gid) {
            assert(is_group_of(db, process.group, db.users[u], manager_gid, gid));
            if exists|v: int, g: u32|
                {
                    &&& #[trigger] is_user_of(db, process.user, manager_uid, v)
                    &&& #[trigger] is_group_of(db, process.group, db.users[v], manager_gid, g)
                    &&& scope == ManagerScope::User ==> db.users[v].uid == manager_uid && g
                        == manager_gid
                } {
                let (v, g) = choose|v: int, g: u32|
                    {
                        &&& #[trigger] is_user_of(db, process.user, manager_uid, v)
                        &&& #[trigger] is_group_of(
                            db,
                            process.group,
                            db.users[v],
                            manager_gid,
                            g,
                        )
                        &&& scope == ManagerScope::User ==> db.users[v].uid == manager_uid && g
                            == manager_gid
                    };
                assert(v == u);
                assert(g == gid);
            }
        } else {
            assert forall|v: int, g: u32| #[trigger]
                is_user_of(db, process.user, manager_uid, v) implies !#[trigger] is_group_of(
                db,
                process.group,
                db.users[v],
                manager_gid,
                g,
            ) by {}
        }
    }
}

/// What a line of the account file says: seven fields between colons, of which the first is
/// the name, the third and the fourth the numbers of the user and of the group, and the last
/// two the home directory and the shell. A line is refused exactly where it has another
/// number of fields, no name, or no number where one belongs; the refusal tells the line.
pub proof fn user_line_law(line: Seq<char>, number: nat)
    ensures
        ({
            let fields = text::split(line, ':');
            match user_record(line, number) {
                Ok(user) => {
                    &&& fields.len() == 7
                    &&& fields[0].len() > 0
                    &&& user.name == fields[0]
                    &&& text::parse_u32(fields[2]) == Some(user.uid)
                    &&& text::parse_u32(fields[3]) == Some(user.gid)
                    &&& user.home == fields[5]
                    &&& user.shell == fields[6]
                },
                Err(e) => {
                    &&& fields.len() != 7 || fields[0].len() == 0 || text::parse_u32(fields[2])
                        is None || text::parse_u32(fields[3]) is None
                    &&& e matches IdentityErrorModel::InvalidEntry { file, line: told, .. } && file
                        == "passwd"@ && told == number
                },
            }
        }),
{
}

/// What a line of the group file says: four fields between colons, of which the first is the
/// name, the third the number, and the last the members between commas.
pub proof fn group_line_law(line: Seq<char>, number: nat, member: Seq<char>)
    ensures
        ({
            let fields = text::split(line, ':');
            match group_record(line, number) {
                Ok(group) => {
                    &&& fields.len() == 4
                    &&& fields[0].len() > 0
                    &&& group.name == fields[0]
                    &&& text::parse_u32(fields[2]) == Some(group.gid)
                    &&& group.members.contains(member) <==> member.len() > 0 && text::split(
                        fields[3],
                        ',',
                    ).contains(member)
                },
                Err(e) => {
                    &&& fields.len() != 4 || fields[0].len() == 0 || text::parse_u32(fields[2])
                        is None
                    &&& e matches IdentityErrorModel::InvalidEntry { file, line: told, .. } && file
                        == "group"@ && told == number
                },
            }
        }),
{
    let fields = text::split(line, ':');
    let members = text::split(fields[3], ',');
    non_empty_law(members, members.len(), member);
    if members.contains(member) {
        let k = choose|k: int| 0 <= k < members.len() && members[k] == member;
        assert(members[k] == member);
    }
}

proof fn non_empty_law(parts: Seq<Seq<char>>, n: nat, part: Seq<char>)
    requires
        n <= parts.len(),
    ensures
        non_empty(parts, n).contains(part) <==> part.len() > 0 && exists|k: int|
            0 <= k < n && #[trigger] parts[k] == part,
    decreases n,
{
    if n > 0 {
        non_empty_law(parts, (n - 1) as nat, part);
        let before = non_empty(parts, (n - 1) as nat);
        let all = non_empty(parts, n);
        if before.contains(part) {
            let q = choose|q: int| 0 <= q < before.len() && before[q] == part;
            assert(all[q] == part);
        }
        if parts[n - 1].len() > 0 {
            assert(all[before.len() as int] == parts[n - 1]);
        }
        if all.contains(part) && !before.contains(part) {
            let q = choose|q: int| 0 <= q < all.len() && all[q] == part;
            assert(q == before.len());
            assert(parts[n - 1] == part);
        }
    }
}

/// Whether a line says nothing: it has nothing but white space, or begins with a number sign
/// after it.
pub open spec fn says_nothing(line: Seq<char>) -> bool {
    let rest = text::trim(line);
    rest.len() == 0 || rest[0] == '#'
}

/// Whether a user comes from one of the first `n` lines.
pub open spec fn told_user(lines: Seq<Seq<char>>, n: nat, user: UserModel) -> bool {
    exists|k: int|
        0 <= k < n && !says_nothing(#[trigger] lines[k]) && user_record(
            text::trim(lines[k]),
            (k + 1) as nat,
        ) == Ok::<UserModel, IdentityErrorModel>(user)
}

/// What the account file has: the user of each line that says anything, and no other. It is
/// refused exactly where such a line is.
pub proof fn passwd_law(lines: Seq<Seq<char>>, n: nat)
    requires
        n <= lines.len(),
    ensures
        passwd_result(lines, n) is Ok <==> forall|k: int|
            0 <= k < n && !says_nothing(#[trigger] lines[k]) ==> user_record(
                text::trim(lines[k]),
                (k + 1) as nat,
            ) is Ok,
        passwd_result(lines, n) matches Ok(list) ==> {
            &&& forall|u: int| 0 <= u < list.len() ==> told_user(lines, n, #[trigger] list[u])
            &&& forall|k: int|
                0 <= k < n && !says_nothing(#[trigger] lines[k]) ==> list.contains(
                    user_record(text::trim(lines[k]), (k + 1) as nat)->Ok_0,
                )
        },
    decreases n,
{
    if n > 0 {
        passwd_law(lines, (n - 1) as nat);
        if passwd_result(lines, n) is Ok {
            let before = passwd_result(lines, (n - 1) as nat)->Ok_0;
            let list = passwd_result(lines, n)->Ok_0;
            assert forall|u: int| 0 <= u < list.len() implies told_user(
                lines,
                n,
                #[trigger] list[u],
            ) by {
                if u < before.len() {
                    assert(list[u] == before[u]);
                    assert(told_user(lines, (n - 1) as nat, before[u]));
                    let k = choose|k: int|
                        0 <= k < n - 1 && !says_nothing(#[trigger] lines[k]) && user_record(
                            text::trim(lines[k]),
                            (k + 1) as nat,
                        ) == Ok::<UserModel, IdentityErrorModel>(before[u]);
                    assert(!says_nothing(lines[k]));
                } else {
                    assert(!says_nothing(lines[n - 1]));
                }
            }
            assert forall|k: int| 0 <= k < n && !says_nothing(#[trigger] lines[k]) implies list.contains(
                user_record(text::trim(lines[k]), (k + 1) as nat)->Ok_0,
            ) by {
                let user = user_record(text::trim(lines[k]), (k + 1) as nat)->Ok_0;
                if k < n - 1 {
                    assert(before.contains(user));
                    let u = choose|u: int| 0 <= u < before.len() && before[u] == user;
                    assert(list[u] == user);
                } else {
                    assert(list[before.len() as int] == user);
                }
            }
        }
    }
}

/// Whether a group comes from one of the first `n` lines.
pub open spec fn told_group(lines: Seq<Seq<char>>, n: nat, group: GroupRecordModel) -> bool {
    exists|k: int|
        0 <= k < n && !says_nothing(#[trigger] lines[k]) && group_record(
            text::trim(lines[k]),
            (k + 1) as nat,
        ) == Ok::<GroupRecordModel, IdentityErrorModel>(group)
}

/// What the group file has: the group of each line that says anything, and no other. It is
/// refused exactly where such a line is.
pub proof fn group_law(lines: Seq<Seq<char>>, n: nat)
    requires
        n <= lines.len(),
    ensures
        group_result(lines, n) is Ok <==> forall|k: int|
            0 <= k < n && !says_nothing(#[trigger] lines[k]) ==> group_record(
                text::trim(lines[k]),
                (k + 1) as nat,
            ) is Ok,
        group_result(lines, n) matches Ok(list) ==> {
            &&& forall|g: int| 0 <= g < list.len() ==> told_group(lines, n, #[trigger] list[g])
            &&& forall|k: int|
                0 <= k < n && !says_nothing(#[trigger] lines[k]) ==> list.contains(
                    group_record(text::trim(lines[k]), (k + 1) as nat)->Ok_0,
                )
        },
    decreases n,
{
    if n > 0 {
        group_law(lines, (n - 1) as nat);
        if group_result(lines, n) is Ok {
            let before = group_result(lines, (n - 1) as nat)->Ok_0;
            let list = group_result(lines, n)->Ok_0;
            assert forall|g: int| 0 <= g < list.len() implies told_group(
                lines,
                n,
                #[trigger] list[g],
            ) by {
                if g < before.len() {
                    assert(list[g] == before[g]);
                    assert(told_group(lines, (n - 1) as nat, before[g]));
                    let k = choose|k: int|
                        0 <= k < n - 1 && !says_nothing(#[trigger] lines[k]) && group_record(
                            text::trim(lines[k]),
                            (k + 1) as nat,
                        ) == Ok::<GroupRecordModel, IdentityErrorModel>(before[g]);
                    assert(!says_nothing(lines[k]));
                } else {
                    assert(!says_nothing(lines[n - 1]));
                }
            }
            assert forall|k: int| 0 <= k < n && !says_nothing(#[trigger] lines[k]) implies list.contains(
                group_record(text::trim(lines[k]), (k + 1) as nat)->Ok_0,
            ) by {
                let group = group_record(text::trim(lines[k]), (k + 1) as nat)->Ok_0;
                if k < n - 1 {
                    assert(before.contains(group));
                    let g = choose|g: int| 0 <= g < before.len() && before[g] == group;
                    assert(list[g] == group);
                } else {
                    assert(list[before.len() as int] == group);
                }
            }
        }
    }
}

/// Why an identity cannot be had: the user or a group that is named is not there, or the
/// service of a user's manager would leave its user or its group. The refusal says which.
pub proof fn resolve_refusal_law(
    db: AccountsModel,
    process: ProcessModel,
    scope: ManagerScope,
    manager_uid: u32,
    manager_gid: u32,
)
    ensures
        db.resolve_error(process, scope, manager_uid, manager_gid) matches Some(e) ==> match e {
            IdentityErrorModel::UnknownUser(name) => process.user == SelectionModel::Explicit(
                IdentityModel::Name(name),
            ) && forall|u: int| 0 <= u < db.users.len() ==> (#[trigger] db.users[u]).name != name,
            IdentityErrorModel::UnknownUid(uid) => (process.user == SelectionModel::Explicit(
                IdentityModel::Id(uid),
            ) || !(process.user is Explicit) && uid == manager_uid) && forall|u: int|
                0 <= u < db.users.len() ==> (#[trigger] db.users[u]).uid != uid,
            IdentityErrorModel::UnknownGroup(name) => asks_for(process, IdentityModel::Name(name))
                && !group_known(db, IdentityModel::Name(name)),
            IdentityErrorModel::UnknownGid(gid) => asks_for(process, IdentityModel::Id(gid))
                && !group_known(db, IdentityModel::Id(gid)),
            IdentityErrorModel::UserUidMismatch { requested, manager } => scope
                == ManagerScope::User && manager == manager_uid && requested != manager_uid,
            IdentityErrorModel::UserGidMismatch { requested, manager } => scope
                == ManagerScope::User && manager == manager_gid && requested != manager_gid,
            _ => false,
        },
{
    selected_user_law(db, process.user, manager_uid);
    match db.selected_user(process.user, manager_uid) {
        Err(_) => {
            unknown_user(db, process.user, manager_uid);
        },
        Ok(u) => {
            if let SelectionModel::Explicit(spec) = process.group {
                unknown_group(db, spec);
            }
            further_refused(
                db,
                process.supplementary_groups,
                process.supplementary_groups.len(),
            );
        },
    }
}

/// Whether a service names a group, as its own or as a further one.
pub open spec fn asks_for(process: ProcessModel, spec: IdentityModel) -> bool {
    process.group == SelectionModel::Explicit(spec) || process.supplementary_groups.contains(spec)
}

proof fn unknown_user(db: AccountsModel, selection: SelectionModel, manager_uid: u32)
    ensures
        db.selected_user(selection, manager_uid) matches Err(e) ==> match e {
            IdentityErrorModel::UnknownUser(name) => selection == SelectionModel::Explicit(
                IdentityModel::Name(name),
            ) && forall|u: int| 0 <= u < db.users.len() ==> (#[trigger] db.users[u]).name != name,
            IdentityErrorModel::UnknownUid(uid) => (selection == SelectionModel::Explicit(
                IdentityModel::Id(uid),
            ) || !(selection is Explicit) && uid == manager_uid) && forall|u: int|
                0 <= u < db.users.len() ==> (#[trigger] db.users[u]).uid != uid,
            _ => false,
        },
{
    let uid = match selection {
        SelectionModel::Explicit(IdentityModel::Id(uid)) => uid,
        _ => manager_uid,
    };
    let by_uid = |u: int| db.users[u].uid == uid;
    search::first_where_law(by_uid, db.users.len());
    if db.user_by_uid(uid) is None {
        assert forall|u: int| 0 <= u < db.users.len() implies (#[trigger] db.users[u]).uid
            != uid by {
            assert(!by_uid(u));
        }
    }
    if let SelectionModel::Explicit(IdentityModel::Name(name)) = selection {
        let by_name = |u: int| db.users[u].name == name;
        search::first_where_law(by_name, db.users.len());
        if db.user_by_name(name) is None {
            assert forall|u: int| 0 <= u < db.users.len() implies (#[trigger] db.users[u]).name
                != name by {
                assert(!by_name(u));
            }
        }
    }
}

proof fn unknown_group(db: AccountsModel, spec: IdentityModel)
    ensures
        db.named_group(spec) matches Err(e) ==> !group_known(db, spec) && e == match spec {
            IdentityModel::Name(name) => IdentityErrorModel::UnknownGroup(name),
            IdentityModel::Id(gid) => IdentityErrorModel::UnknownGid(gid),
        },
{
    named_group_law(db, spec);
}

proof fn further_refused(db: AccountsModel, specs: Seq<IdentityModel>, n: nat)
    requires
        n <= specs.len(),
    ensures
        db.further_error(specs, n) matches Some(e) ==> exists|k: int|
            0 <= k < n && !group_known(db, #[trigger] specs[k]) && e == match specs[k] {
                IdentityModel::Name(name) => IdentityErrorModel::UnknownGroup(name),
                IdentityModel::Id(gid) => IdentityErrorModel::UnknownGid(gid),
            },
    decreases n,
{
    if n > 0 {
        further_refused(db, specs, (n - 1) as nat);
        unknown_group(db, specs[n - 1]);
    }
}

} // verus!
