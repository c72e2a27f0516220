//! Rows that are kept, and where they are kept.
use vstd::prelude::*;
use crate::text::{begins_with, cat2, chars_of, trim, trim_text};

verus! {

/// An entry of the calendar that belongs to no case. The date is written
/// `YYYY-MM-DD`.
pub struct CalendarEvent {
    pub id: String,
    pub date: String,
    pub title: String,
    pub created_at: String,
}

/// An entry that is to be made.
pub struct NewCalendarEvent {
    pub date: String,
    pub title: String,
}

impl NewCalendarEvent {
    /// The entry as it is kept: trimmed.
    pub fn into_row(self, id: &str, now: &str) -> (r: CalendarEvent)
        ensures
            r.id@ == id@,
            r.date@ == trim(self.date@),
            r.title@ == trim(self.title@),
            r.created_at@ == now@,
    {
        CalendarEvent {
            id: String::from_str(id),
            date: trim_text(self.date.as_str()),
            title: trim_text(self.title.as_str()),
            created_at: String::from_str(now),
        }
    }
}

/// Work on the recording of a chat.
pub struct ChatEvidenceJob {
    pub id: String,
    pub case_id: String,
    pub video_path: String,
    pub preset: String,
    pub status: String,
    pub output_dir: Option<String>,
    pub pdf_path: Option<String>,
    pub frame_count: Option<i64>,
    pub elapsed_ms: Option<i64>,
    pub error: Option<String>,
    pub created_at: String,
    pub updated_at: String,
}

/// Work that is to be entered.
pub struct NewChatEvidenceJob {
    pub case_id: String,
    pub video_path: String,
    pub preset: String,
}

/// How one step of reading a file went.
pub struct MetricEntry {
    pub filename: String,
    pub ext: String,
    pub file_size_bytes: i64,
    pub stage: String,
    pub backend: String,
    pub outcome: String,
    pub elapsed_ms: i64,
    pub text_chars: Option<i64>,
    pub error_short: Option<String>,
}

/// How one step of reading a file went, and when it was.
pub struct MetricRow {
    pub filename: String,
    pub ext: String,
    pub file_size_bytes: i64,
    pub stage: String,
    pub backend: String,
    pub outcome: String,
    pub elapsed_ms: i64,
    pub text_chars: Option<i64>,
    pub error_short: Option<String>,
    pub created_at: String,
}

/// What went wrong with the database.
pub enum DbError {
    HomeDirNotFound,
    Io(String),
    Connect(String),
    Migrate(String),
}

impl DbError {
    /// What is said of the error.
    pub fn message(&self) -> (r: String)
        ensures
            match self {
                DbError::HomeDirNotFound => r@ == "找不到用户主目录"@,
                DbError::Io(e) => r@ == "IO 错误: "@ + e@,
                DbError::Connect(e) => r@ == "数据库连接失败: "@ + e@,
                DbError::Migrate(e) => r@ == "数据库迁移失败: "@ + e@,
            },
    {
        match self {
            DbError::HomeDirNotFound => String::from_str("找不到用户主目录"),
            DbError::Io(e) => cat2("IO 错误: ", e.as_str()),
            DbError::Connect(e) => cat2("数据库连接失败: ", e.as_str()),
            DbError::Migrate(e) => cat2("数据库迁移失败: ", e.as_str()),
        }
    }
}

/// A path ends in a separator. Where the separator is a backslash a slash is one
/// too, but for paths that begin with `\\?\` and are taken as they stand.
pub open spec fn ends_in_separator(dir: Seq<char>, separator: char) -> bool {
    dir.len() > 0 && (dir.last() == separator || (separator == '\\' && dir.last() == '/'
        && !"\\\\?\\"@.is_prefix_of(dir)))
}

/// A drive and nothing else, where the separator is a backslash.
pub open spec fn bare_drive(dir: Seq<char>, separator: char) -> bool {
    separator == '\\' && dir.len() == 2 && dir[1] == ':' && (('a' <= dir[0] && dir[0] <= 'z') || (
    'A' <= dir[0] && dir[0] <= 'Z'))
}

/// A name below a directory.
pub open spec fn below(dir: Seq<char>, separator: char, name: Seq<char>) -> Seq<char> {
    if dir.len() == 0 || ends_in_separator(dir, separator) || bare_drive(dir, separator) {
        dir + name
    } else {
        dir.push(separator) + name
    }
}

/// A name below a directory. A drive without a path is followed by the name
/// itself, as the name is then meant below the directory that is open there.
pub fn path_below(dir: &str, separator: char, name: &str) -> (r: String)
    ensures
        r@ == below(dir@, separator, name@),
{
    let cs = chars_of(dir);
    let n: usize = cs.len();
    let mut out = String::from_str(dir);
    if n > 0 {
        let ends = cs[n - 1] == separator || (separator == '\\' && cs[n - 1] == '/' && !begins_with(
            dir,
            "\\\\?\\",
        ));
        let drive = separator == '\\' && n == 2 && cs[1] == ':' && (('a' <= cs[0] && cs[0] <= 'z')
            || ('A' <= cs[0] && cs[0] <= 'Z'));
        if !ends && !drive {
            out.push(separator);
        }
    }
    out.append(name);
    out
}

/// Where the database is, in the directory for the data of this application.
pub fn default_db_path(data_dir: Option<String>, separator: char) -> (r: Result<String, DbError>)
    ensures
        match data_dir {
            Some(d) => r matches Ok(p) && p@ == below(d@, separator, "caseboard.db"@),
            None => r matches Err(e) && e is HomeDirNotFound,
        },
{
    match data_dir {
        Some(d) => Ok(path_below(d.as_str(), separator, "caseboard.db")),
        None => Err(DbError::HomeDirNotFound),
    }
}

/// How many connections a database may have: a database in memory is a new one
/// for each connection, so it gets one.
pub fn max_connections(db_path: &str) -> (r: u32)
    ensures
        r == if db_path@ == ":memory:"@ {
            1u32
        } else {
            5u32
        },
{
    if crate::text::same_text(db_path, ":memory:") {
        1
    } else {
        5
    }
}

/// A path below a directory begins with the directory and ends in the name, with no
/// more than one separator between them, and with exactly one behind a plain
/// directory.
pub proof fn names_are_put_below_their_directory(
    dir: Seq<char>,
    separator: char,
    name: Seq<char>,
)
    ensures
        dir.is_prefix_of(below(dir, separator, name)),
        name.is_suffix_of(below(dir, separator, name)),
        below(dir, separator, name).len() <= dir.len() + 1 + name.len(),
        dir.len() > 0 && dir.last() != separator && separator != '\\' ==> below(
            dir,
            separator,
            name,
        ) == dir + seq![separator] + name,
        dir.len() > 2 && dir.last() != '\\' && dir.last() != '/' ==> below(dir, '\\', name) == dir
            + seq!['\\'] + name,
        below(dir.push(separator), separator, name) == dir + seq![separator] + name,
        below(Seq::empty(), separator, name) == name,
{
    let w = below(dir, separator, name);
    assert(w.subrange(0, dir.len() as int) =~= dir);
    assert(w.subrange(w.len() - name.len(), w.len() as int) =~= name);
    assert(dir.push(separator) + name =~= dir + seq![separator] + name);
    assert(dir.push('\\') + name =~= dir + seq!['\\'] + name);
    assert(Seq::<char>::empty() + name =~= name);
}

} // verus!
