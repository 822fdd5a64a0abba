//! The list of programs that are launched through the local proxy, and the exact
//! environment and arguments each launch gets. Nothing system-wide is changed.
use vstd::prelude::*;
use vstd::string::*;
use vstd::utf8::encode_utf8;
use crate::error::AppError;
use crate::sorted::views;
use crate::text::{
    chars_of, decimal, decimal_string, ends_with, lower, lower_chars, matches_at, owned,
    starts_with, string_of, trim_chars, trimmed,
};

verus! {

/// Largest number of programs in the list.
pub const MAX_PROGRAMS: usize = 100;

/// How a program is pointed at the proxy.
#[derive(Debug, Clone, Copy, PartialEq, Eq, Structural)]
pub enum ProgramProxyMode {
    /// Proxy environment variables of the child process only.
    Environment,
    /// The environment plus Chromium's own proxy switches.
    Chromium,
}

/// A program of the list. `id` is the 128-bit value of its UUID.
#[derive(Debug, Clone)]
pub struct ProxyProgram {
    pub id: u128,
    pub name: String,
    pub executable: String,
    pub arguments: Vec<String>,
    pub working_directory: Option<String>,
    pub mode: ProgramProxyMode,
}

/// The stored list, versioned by `revision` for optimistic concurrency.
#[derive(Debug, Clone)]
pub struct ProgramDocument {
    pub schema_version: u32,
    pub revision: u64,
    pub programs: Vec<ProxyProgram>,
}

/// A program as entered in the interface; no `id` means a new entry.
#[derive(Debug, Clone)]
pub struct ProgramInput {
    pub id: Option<u128>,
    pub name: String,
    pub executable: String,
    pub arguments: Vec<String>,
    pub working_directory: Option<String>,
    pub mode: ProgramProxyMode,
}

pub open spec fn is_empty_document(d: ProgramDocument) -> bool {
    d.schema_version == 1 && d.revision == 0 && d.programs@.len() == 0
}

impl Default for ProgramDocument {
    fn default() -> (r: Self)
        ensures
            is_empty_document(r),
    {
        ProgramDocument { schema_version: 1, revision: 0, programs: Vec::new() }
    }
}

pub open spec fn invalid_input(e: AppError, message: Seq<char>) -> bool {
    e matches AppError::InvalidInput(m) && m@ == message
}

pub fn invalid(message: &str) -> (e: AppError)
    ensures
        invalid_input(e, message@),
{
    AppError::InvalidInput(owned(message))
}

pub open spec fn is_ascii_alpha(c: char) -> bool {
    ('a' <= c && c <= 'z') || ('A' <= c && c <= 'Z')
}

pub open spec fn verbatim_prefix() -> Seq<char> {
    seq!['\\', '\\', '?', '\\']
}

/// The path without a leading `\\?\`.
pub open spec fn without_verbatim(p: Seq<char>) -> Seq<char> {
    if starts_with(p, verbatim_prefix()) {
        p.subrange(4, p.len() as int)
    } else {
        p
    }
}

/// A drive-absolute path on a local disk (`C:\...` or `C:/...`, optionally behind
/// `\\?\`): no relative, drive-relative, UNC, device or URL path.
pub open spec fn is_local_windows_path(value: Seq<char>) -> bool {
    let p = without_verbatim(value);
    p.len() > 3 && is_ascii_alpha(p[0]) && p[1] == ':' && (p[2] == '\\' || p[2] == '/')
}

pub fn local_windows_path(value: &str) -> (r: bool)
    ensures
        r == is_local_windows_path(value@),
{
    let all = chars_of(value);
    let prefix: Vec<char> = vec!['\\', '\\', '?', '\\'];
    assert(prefix@ == verbatim_prefix());
    let p = if matches_at(&all, &prefix, 0) {
        let mut rest: Vec<char> = Vec::new();
        let mut i: usize = 4;
        while i < all.len()
            invariant
                4 <= i <= all.len(),
                rest@ == all@.subrange(4, i as int),
            decreases all.len() - i,
        {
            rest.push(all[i]);
            i = i + 1;
        }
        rest
    } else {
        all
    };
    if p.len() <= 3 {
        return false;
    }
    let c = p[0];
    (('a' <= c && c <= 'z') || ('A' <= c && c <= 'Z')) && p[1] == ':' && (p[2] == '\\' || p[2]
        == '/')
}

pub open spec fn is_control(c: char) -> bool {
    c == '\0' || c == '\n' || c == '\r'
}

/// The text contains a NUL, line feed or carriage return.
pub open spec fn has_control(s: Seq<char>) -> bool {
    exists|i: int| 0 <= i < s.len() && is_control(#[trigger] s[i])
}

fn contains_control(s: &str) -> (r: bool)
    ensures
        r == has_control(s@),
{
    let cs = chars_of(s);
    let mut i: usize = 0;
    while i < cs.len()
        invariant
            i <= cs.len(),
            cs@ == s@,
            forall|k: int| 0 <= k < i ==> !is_control(#[trigger] cs@[k]),
        decreases cs.len() - i,
    {
        if cs[i] == '\0' || cs[i] == '\n' || cs[i] == '\r' {
            assert(is_control(s@[i as int]));
            return true;
        }
        i = i + 1;
    }
    false
}

pub open spec fn byte_len(s: Seq<char>) -> int {
    encode_utf8(s).len() as int
}

/// Total UTF-8 length of the arguments.
pub open spec fn total_bytes(args: Seq<String>) -> int
    decreases args.len(),
{
    if args.len() == 0 {
        0
    } else {
        total_bytes(args.drop_last()) + byte_len(args.last()@)
    }
}

pub open spec fn any_control(args: Seq<String>) -> bool {
    exists|i: int| 0 <= i < args.len() && has_control(#[trigger] args[i]@)
}

/// Switches that Chromium mode sets itself and a user argument may not override.
pub open spec fn managed_switch(arg: Seq<char>) -> bool {
    let a = lower(trimmed(arg));
    starts_with(a, "--proxy-"@) || starts_with(a, "--no-proxy-server"@) || starts_with(
        a,
        "--system-proxy"@,
    ) || starts_with(a, "--disable-quic"@)
}

pub open spec fn any_managed_switch(args: Seq<String>) -> bool {
    exists|i: int| 0 <= i < args.len() && managed_switch(#[trigger] args[i]@)
}

pub open spec fn name_message() -> Seq<char> {
    "程序名称不能为空，且不能超过 128 字"@
}

pub open spec fn path_message() -> Seq<char> {
    "程序路径无效"@
}

pub open spec fn arguments_message() -> Seq<char> {
    "启动参数最多 64 项、总长 8192 字节，不能包含换行或空字符"@
}

pub open spec fn directory_message() -> Seq<char> {
    "工作目录无效"@
}

pub open spec fn chromium_message() -> Seq<char> {
    "Chromium 模式会管理代理参数，请移除自定义参数中的代理或 QUIC 开关"@
}

/// What is wrong with a program entry, if anything (the first failing rule).
pub open spec fn field_problem(p: ProxyProgram) -> Option<Seq<char>> {
    if trimmed(p.name@).len() == 0 || p.name@.len() > 128 || has_control(p.name@) {
        Some(name_message())
    } else if p.executable@.len() == 0 || byte_len(p.executable@) > 32760 || has_control(
        p.executable@,
    ) || !is_local_windows_path(p.executable@) || !ends_with(lower(p.executable@), ".exe"@) {
        Some(path_message())
    } else if p.arguments@.len() > 64 || total_bytes(p.arguments@) > 8192 || any_control(
        p.arguments@,
    ) {
        Some(arguments_message())
    } else if p.working_directory matches Some(d) && (byte_len(d@) > 32760 || has_control(d@)
        || !is_local_windows_path(d@)) {
        Some(directory_message())
    } else if p.mode == ProgramProxyMode::Chromium && any_managed_switch(p.arguments@) {
        Some(chromium_message())
    } else {
        None
    }
}

proof fn lemma_nonempty_encoding(s: Seq<char>)
    ensures
        s.len() > 0 ==> encode_utf8(s).len() > 0,
{
    if s.len() > 0 {
        reveal_with_fuel(encode_utf8, 2);
    }
}

fn too_long(s: &str, limit: usize) -> (r: bool)
    ensures
        r == (byte_len(s@) > limit),
{
    s.as_bytes().len() > limit
}

fn arguments_too_long(args: &Vec<String>) -> (r: bool)
    ensures
        r == (total_bytes(args@) > 8192),
{
    let mut total: usize = 0;
    let mut i: usize = 0;
    while i < args.len()
        invariant
            i <= args.len(),
            total == total_bytes(args@.take(i as int)),
            total <= 8192,
        decreases args.len() - i,
    {
        proof {
            assert(args@.take(i + 1).drop_last() =~= args@.take(i as int));
            lemma_total_bytes_prefix(args@, i + 1);
        }
        let n = args[i].as_str().as_bytes().len();
        if n > 8192 - total {
            proof {
                lemma_total_bytes_monotone(args@, i + 1);
            }
            return true;
        }
        total = total + n;
        i = i + 1;
    }
    assert(args@.take(args.len() as int) =~= args@);
    false
}

proof fn lemma_total_bytes_prefix(args: Seq<String>, n: int)
    requires
        0 < n <= args.len(),
    ensures
        total_bytes(args.take(n)) == total_bytes(args.take(n - 1)) + byte_len(args[n - 1]@),
{
    assert(args.take(n).drop_last() =~= args.take(n - 1));
}

proof fn lemma_total_bytes_monotone(args: Seq<String>, n: int)
    requires
        0 <= n <= args.len(),
    ensures
        total_bytes(args.take(n)) <= total_bytes(args),
    decreases args.len() - n,
{
    if n < args.len() {
        lemma_total_bytes_monotone(args, n + 1);
        lemma_total_bytes_prefix(args, n + 1);
    } else {
        assert(args.take(n) =~= args);
    }
}

fn arguments_have_control(args: &Vec<String>) -> (r: bool)
    ensures
        r == any_control(args@),
{
    let mut i: usize = 0;
    while i < args.len()
        invariant
            i <= args.len(),
            forall|k: int| 0 <= k < i ==> !has_control(#[trigger] args@[k]@),
        decreases args.len() - i,
    {
        if contains_control(args[i].as_str()) {
            return true;
        }
        i = i + 1;
    }
    false
}

fn starts(s: &Vec<char>, prefix: &str) -> (r: bool)
    ensures
        r == starts_with(s@, prefix@),
{
    matches_at(s, &chars_of(prefix), 0)
}

fn is_managed_switch(arg: &str) -> (r: bool)
    ensures
        r == managed_switch(arg@),
{
    let a = lower_chars(&trim_chars(&chars_of(arg)));
    starts(&a, "--proxy-") || starts(&a, "--no-proxy-server") || starts(&a, "--system-proxy")
        || starts(&a, "--disable-quic")
}

fn has_managed_switch(args: &Vec<String>) -> (r: bool)
    ensures
        r == any_managed_switch(args@),
{
    let mut i: usize = 0;
    while i < args.len()
        invariant
            i <= args.len(),
            forall|k: int| 0 <= k < i ==> !managed_switch(#[trigger] args@[k]@),
        decreases args.len() - i,
    {
        if is_managed_switch(args[i].as_str()) {
            return true;
        }
        i = i + 1;
    }
    false
}

fn is_exe(path: &str) -> (r: bool)
    ensures
        r == ends_with(lower(path@), ".exe"@),
{
    let low = lower_chars(&chars_of(path));
    let suffix = chars_of(".exe");
    if low.len() < suffix.len() {
        return false;
    }
    matches_at(&low, &suffix, low.len() - suffix.len())
}

/// Checks the fields of one program entry.
pub fn validate_fields(program: &ProxyProgram) -> (r: Result<(), AppError>)
    ensures
        match field_problem(*program) {
            None => r is Ok,
            Some(m) => r matches Err(e) && invalid_input(e, m),
        },
{
    let name = chars_of(program.name.as_str());
    if trim_chars(&name).len() == 0 || name.len() > 128 || contains_control(program.name.as_str()) {
        return Err(invalid("程序名称不能为空，且不能超过 128 字"));
    }
    let exe = program.executable.as_str();
    if exe.as_bytes().len() == 0 || too_long(exe, 32760) || contains_control(exe)
        || !local_windows_path(exe) || !is_exe(exe) {
        proof {
            if encode_utf8(exe@).len() == 0 {
                lemma_nonempty_encoding(exe@);
            }
        }
        return Err(invalid("程序路径无效"));
    }
    proof {
        if exe@.len() == 0 {
            assert(encode_utf8(exe@) =~= Seq::<u8>::empty());
        }
    }
    if program.arguments.len() > 64 || arguments_too_long(&program.arguments)
        || arguments_have_control(&program.arguments) {
        return Err(invalid("启动参数最多 64 项、总长 8192 字节，不能包含换行或空字符"));
    }
    match &program.working_directory {
        Some(d) => {
            if too_long(d.as_str(), 32760) || contains_control(d.as_str()) || !local_windows_path(
                d.as_str(),
            ) {
                return Err(invalid("工作目录无效"));
            }
        },
        None => {},
    }
    if program.mode == ProgramProxyMode::Chromium && has_managed_switch(&program.arguments) {
        return Err(invalid("Chromium 模式会管理代理参数，请移除自定义参数中的代理或 QUIC 开关"));
    }
    Ok(())
}


pub open spec fn document_message() -> Seq<char> {
    "程序代理清单版本或条目数量无效"@
}

pub open spec fn duplicate_message() -> Seq<char> {
    "程序清单包含重复 ID"@
}

/// The first problem among the first `n` programs, checked in order: the fields
/// of each program, then whether its id was already used.
pub open spec fn programs_problem(programs: Seq<ProxyProgram>, n: int) -> Option<Seq<char>>
    decreases n,
{
    if n <= 0 {
        None
    } else {
        match programs_problem(programs, n - 1) {
            Some(m) => Some(m),
            None => match field_problem(programs[n - 1]) {
                Some(m) => Some(m),
                None => if exists|j: int| 0 <= j < n - 1 && #[trigger] programs[j].id == programs[n
                    - 1].id {
                    Some(duplicate_message())
                } else {
                    None
                },
            },
        }
    }
}

pub open spec fn document_problem(d: ProgramDocument) -> Option<Seq<char>> {
    if d.schema_version != 1 || d.programs@.len() > MAX_PROGRAMS {
        Some(document_message())
    } else {
        programs_problem(d.programs@, d.programs@.len() as int)
    }
}

pub open spec fn unique_ids(programs: Seq<ProxyProgram>) -> bool {
    forall|i: int, j: int| 0 <= i < j < programs.len() ==> #[trigger] programs[i].id != #[trigger] programs[j].id
}

proof fn lemma_problem_free_prefix(programs: Seq<ProxyProgram>, n: int)
    requires
        0 <= n <= programs.len(),
        programs_problem(programs, n) is None,
    ensures
        forall|i: int, j: int| 0 <= i < j < n ==> #[trigger] programs[i].id != #[trigger] programs[j].id,
        forall|i: int| 0 <= i < n ==> field_problem(#[trigger] programs[i]) is None,
    decreases n,
{
    if n > 0 {
        lemma_problem_free_prefix(programs, n - 1);
        assert forall|i: int, j: int| 0 <= i < j < n implies #[trigger] programs[i].id
            != #[trigger] programs[j].id by {
            if j == n - 1 {
                if programs[i].id == programs[j].id {
                    assert(exists|k: int| 0 <= k < n - 1 && #[trigger] programs[k].id
                        == programs[n - 1].id);
                }
            }
        }
    }
}

/// A list that passes validation names every program once, and every program in
/// it passes the field checks.
pub proof fn valid_documents_have_unique_valid_programs(d: ProgramDocument)
    requires
        document_problem(d) is None,
    ensures
        d.schema_version == 1,
        d.programs@.len() <= MAX_PROGRAMS,
        unique_ids(d.programs@),
        forall|i: int| 0 <= i < d.programs@.len() ==> field_problem(#[trigger] d.programs@[i]) is None,
{
    lemma_problem_free_prefix(d.programs@, d.programs@.len() as int);
}

proof fn lemma_problem_sticks(programs: Seq<ProxyProgram>, n: int, k: int)
    requires
        0 <= n <= k,
        programs_problem(programs, n) is Some,
    ensures
        programs_problem(programs, k) == programs_problem(programs, n),
    decreases k - n,
{
    if k > n {
        lemma_problem_sticks(programs, n, k - 1);
    }
}

impl ProgramDocument {
    /// Checks the schema version, the number of entries, every entry's fields and
    /// that no id occurs twice.
    pub fn validate(&self) -> (r: Result<(), AppError>)
        ensures
            match document_problem(*self) {
                None => r is Ok,
                Some(m) => r matches Err(e) && invalid_input(e, m),
            },
    {
        if self.schema_version != 1 || self.programs.len() > MAX_PROGRAMS {
            return Err(invalid("程序代理清单版本或条目数量无效"));
        }
        let mut i: usize = 0;
        while i < self.programs.len()
            invariant
                i <= self.programs.len(),
                self.schema_version == 1,
                self.programs.len() <= MAX_PROGRAMS,
                programs_problem(self.programs@, i as int) is None,
            decreases self.programs.len() - i,
        {
            match validate_fields(&self.programs[i]) {
                Ok(()) => {},
                Err(e) => {
                    proof {
                        assert(programs_problem(self.programs@, i + 1) == field_problem(
                            self.programs@[i as int],
                        ));
                        lemma_problem_sticks(self.programs@, i + 1, self.programs@.len() as int);
                    }
                    return Err(e);
                },
            }
            let mut j: usize = 0;
            while j < i
                invariant
                    j <= i < self.programs.len(),
                    self.schema_version == 1,
                    self.programs.len() <= MAX_PROGRAMS,
                    programs_problem(self.programs@, i as int) is None,
                    field_problem(self.programs@[i as int]) is None,
                    forall|k: int| 0 <= k < j ==> #[trigger] self.programs@[k].id != self.programs@[i as int].id,
                decreases i - j,
            {
                if self.programs[j].id == self.programs[i].id {
                    proof {
                        assert(self.programs@[j as int].id == self.programs@[i as int].id);
                        assert(programs_problem(self.programs@, i + 1) == Some(duplicate_message()));
                        lemma_problem_sticks(self.programs@, i + 1, self.programs@.len() as int);
                    }
                    return Err(invalid("程序清单包含重复 ID"));
                }
                j = j + 1;
            }
            i = i + 1;
        }
        Ok(())
    }
}

pub open spec fn stale_message() -> Seq<char> {
    "程序清单已更新，请刷新列表后重试；编辑内容仍保留"@
}

/// A change is based on the revision the interface saw; any other is refused.
pub fn check_revision(document: &ProgramDocument, expected: u64) -> (r: Result<(), AppError>)
    ensures
        document.revision == expected <==> r is Ok,
        r matches Err(e) ==> (e matches AppError::Conflict(m) && m@ == stale_message()),
{
    if document.revision != expected {
        return Err(AppError::Conflict(owned("程序清单已更新，请刷新列表后重试；编辑内容仍保留")));
    }
    Ok(())
}

/// Index of the first program with `id`, or -1.
pub open spec fn position_of(programs: Seq<ProxyProgram>, id: u128, from: int) -> int
    decreases programs.len() - from,
{
    if from < 0 || from >= programs.len() {
        -1
    } else if programs[from].id == id {
        from
    } else {
        position_of(programs, id, from + 1)
    }
}

proof fn lemma_position(programs: Seq<ProxyProgram>, id: u128, from: int, r: int)
    requires
        0 <= from <= r <= programs.len(),
        forall|k: int| from <= k < r ==> #[trigger] programs[k].id != id,
        r == programs.len() || programs[r].id == id,
    ensures
        position_of(programs, id, from) == (if r == programs.len() { -1 } else { r }),
    decreases r - from,
{
    if from < r {
        lemma_position(programs, id, from + 1, r);
    }
}

fn find_program(programs: &Vec<ProxyProgram>, id: u128) -> (r: Option<usize>)
    ensures
        match r {
            Some(i) => i as int == position_of(programs@, id, 0) && i < programs.len(),
            None => position_of(programs@, id, 0) == -1,
        },
{
    let mut i: usize = 0;
    while i < programs.len()
        invariant
            i <= programs.len(),
            forall|k: int| 0 <= k < i ==> #[trigger] programs@[k].id != id,
        decreases programs.len() - i,
    {
        if programs[i].id == id {
            proof {
                lemma_position(programs@, id, 0, i as int);
            }
            return Some(i);
        }
        i = i + 1;
    }
    proof {
        lemma_position(programs@, id, 0, i as int);
    }
    None
}

pub open spec fn edited_message() -> Seq<char> {
    "程序条目已被删除"@
}

pub open spec fn overflow_message() -> Seq<char> {
    "程序清单版本溢出"@
}

/// The list after saving `program`: the entry with its id replaced when editing,
/// appended otherwise.
pub open spec fn saved_programs(programs: Seq<ProxyProgram>, program: ProxyProgram, editing: bool) -> Seq<ProxyProgram> {
    if editing {
        programs.update(position_of(programs, program.id, 0), program)
    } else {
        programs.push(program)
    }
}

/// Saves an entry and advances the revision. Editing an entry that no longer
/// exists is refused and never creates one.
pub fn update_document(document: &mut ProgramDocument, program: ProxyProgram, editing: bool) -> (r:
    Result<(), AppError>)
    ensures
        editing && position_of(old(document).programs@, program.id, 0) == -1 ==> (r matches Err(
            AppError::NotFound(m),
        ) && m@ == edited_message()) && *final(document) == *old(document),
        !(editing && position_of(old(document).programs@, program.id, 0) == -1) ==> {
            &&& final(document).programs@ == saved_programs(old(document).programs@, program, editing)
            &&& final(document).schema_version == old(document).schema_version
            &&& if old(document).revision == u64::MAX {
                final(document).revision == old(document).revision && (r matches Err(e)
                    && invalid_input(e, overflow_message()))
            } else {
                final(document).revision == old(document).revision + 1 && match document_problem(
                    *final(document),
                ) {
                    None => r is Ok,
                    Some(m) => r matches Err(e) && invalid_input(e, m),
                }
            }
        },
{
    if editing {
        match find_program(&document.programs, program.id) {
            Some(i) => {
                document.programs.set(i, program);
            },
            None => {
                return Err(AppError::NotFound(owned("程序条目已被删除")));
            },
        }
    } else {
        document.programs.push(program);
    }
    match document.revision.checked_add(1) {
        Some(next) => {
            document.revision = next;
        },
        None => {
            return Err(invalid("程序清单版本溢出"));
        },
    }
    document.validate()
}

pub open spec fn missing_message() -> Seq<char> {
    "程序条目不存在"@
}

/// Removes an entry from the list (never the program itself) and advances the
/// revision.
pub fn remove_program(document: &mut ProgramDocument, id: u128) -> (r: Result<(), AppError>)
    ensures
        position_of(old(document).programs@, id, 0) == -1 ==> (r matches Err(AppError::NotFound(m))
            && m@ == missing_message()) && *final(document) == *old(document),
        position_of(old(document).programs@, id, 0) != -1 ==> {
            &&& final(document).programs@ == old(document).programs@.remove(
                position_of(old(document).programs@, id, 0),
            )
            &&& final(document).schema_version == old(document).schema_version
            &&& if old(document).revision == u64::MAX {
                final(document).revision == old(document).revision && (r matches Err(e)
                    && invalid_input(e, overflow_message()))
            } else {
                final(document).revision == old(document).revision + 1 && r is Ok
            }
        },
{
    let i = match find_program(&document.programs, id) {
        Some(i) => i,
        None => {
            return Err(AppError::NotFound(owned("程序条目不存在")));
        },
    };
    document.programs.remove(i);
    match document.revision.checked_add(1) {
        Some(next) => {
            document.revision = next;
            Ok(())
        },
        None => Err(invalid("程序清单版本溢出")),
    }
}


/// `uuid::Uuid::new_v4`, taken as its 128-bit value: a fresh random id. Nothing is
/// promised of the value.
#[verifier::external_body]
fn new_program_id() -> (r: u128) {
    uuid::Uuid::new_v4().as_u128()
}

fn trimmed_string(s: &str) -> (r: String)
    ensures
        r@ == trimmed(s@),
{
    string_of(&trim_chars(&chars_of(s)))
}

/// How an input becomes an entry: trimmed name and path, a blank working
/// directory dropped, the id kept when there is one.
pub open spec fn normalized_from(input: ProgramInput, p: ProxyProgram) -> bool {
    &&& (input.id matches Some(id) ==> p.id == id)
    &&& p.name@ == trimmed(input.name@)
    &&& p.executable@ == trimmed(input.executable@)
    &&& p.arguments@ == input.arguments@
    &&& match input.working_directory {
        Some(d) => if trimmed(d@).len() == 0 {
            p.working_directory is None
        } else {
            p.working_directory matches Some(w) && w@ == trimmed(d@)
        },
        None => p.working_directory is None,
    }
    &&& p.mode == input.mode
}

/// Turns an input into an entry and checks its fields. Paths are checked as text
/// here, before anything on disk is looked at; a new entry gets a random id.
pub fn normalize_input(input: ProgramInput) -> (r: Result<ProxyProgram, AppError>)
    ensures
        r matches Ok(p) ==> normalized_from(input, p) && field_problem(p) is None,
        r matches Err(e) ==> exists|p: ProxyProgram|
            #![trigger field_problem(p)]
            normalized_from(input, p) && (field_problem(p) matches Some(m) && invalid_input(e, m)),
{
    let ghost given = input;
    let id = match input.id {
        Some(id) => id,
        None => new_program_id(),
    };
    let working_directory = match &input.working_directory {
        Some(d) => {
            let t = trimmed_string(d.as_str());
            if t.as_str().as_bytes().len() == 0 {
                proof {
                    if t@.len() > 0 {
                        lemma_nonempty_encoding(t@);
                    }
                }
                None
            } else {
                proof {
                    if t@.len() == 0 {
                        assert(encode_utf8(t@) =~= Seq::<u8>::empty());
                    }
                }
                Some(t)
            }
        },
        None => None,
    };
    let program = ProxyProgram {
        id,
        name: trimmed_string(input.name.as_str()),
        executable: trimmed_string(input.executable.as_str()),
        arguments: input.arguments,
        working_directory,
        mode: input.mode,
    };
    assert(normalized_from(given, program));
    match validate_fields(&program) {
        Ok(()) => {},
        Err(e) => {
            return Err(e);
        },
    }
    if !local_windows_path(program.executable.as_str()) {
        return Err(invalid("请选择本机磁盘上的程序，不支持相对路径、网络共享或设备路径"));
    }
    Ok(program)
}

pub open spec fn unc_verbatim_prefix() -> Seq<char> {
    seq!['\\', '\\', '?', '\\', 'U', 'N', 'C', '\\']
}

pub open spec fn network_share_message() -> Seq<char> {
    "请使用本机程序，不支持网络共享中的可执行文件"@
}

/// The resolved executable path as shown and launched: network shares refused,
/// the `\\?\` prefix removed.
pub open spec fn canonical_verdict(display: Seq<char>) -> Result<Seq<char>, Seq<char>> {
    if starts_with(display, unc_verbatim_prefix()) || (starts_with(display, seq!['\\', '\\'])
        && !starts_with(display, verbatim_prefix())) {
        Err(network_share_message())
    } else {
        Ok(without_verbatim(display))
    }
}

/// Checks the resolved path of an executable and gives the form that is stored.
pub fn canonical_executable(display: &str) -> (r: Result<String, AppError>)
    ensures
        match canonical_verdict(display@) {
            Ok(p) => r matches Ok(s) && s@ == p,
            Err(m) => r matches Err(e) && invalid_input(e, m),
        },
{
    let cs = chars_of(display);
    let unc: Vec<char> = vec!['\\', '\\', '?', '\\', 'U', 'N', 'C', '\\'];
    let share: Vec<char> = vec!['\\', '\\'];
    let verbatim: Vec<char> = vec!['\\', '\\', '?', '\\'];
    assert(unc@ == unc_verbatim_prefix());
    assert(share@ == seq!['\\', '\\']);
    assert(verbatim@ == verbatim_prefix());
    if matches_at(&cs, &unc, 0) || (matches_at(&cs, &share, 0) && !matches_at(&cs, &verbatim, 0)) {
        return Err(invalid("请使用本机程序，不支持网络共享中的可执行文件"));
    }
    if matches_at(&cs, &verbatim, 0) {
        let mut rest: Vec<char> = Vec::new();
        let mut i: usize = 4;
        while i < cs.len()
            invariant
                4 <= i <= cs.len(),
                rest@ == cs@.subrange(4, i as int),
            decreases cs.len() - i,
        {
            rest.push(cs[i]);
            i = i + 1;
        }
        Ok(string_of(&rest))
    } else {
        Ok(owned(display))
    }
}

pub open spec fn remote_directory_message() -> Seq<char> {
    "工作目录必须位于本机磁盘，不支持网络共享或相对路径"@
}

/// A working directory must be on a local disk.
pub fn check_working_directory(directory: &str) -> (r: Result<(), AppError>)
    ensures
        is_local_windows_path(directory@) <==> r is Ok,
        r matches Err(e) ==> invalid_input(e, remote_directory_message()),
{
    if !local_windows_path(directory) {
        return Err(invalid("工作目录必须位于本机磁盘，不支持网络共享或相对路径"));
    }
    Ok(())
}

/// The local proxy address a launched program is given.
pub open spec fn proxy_endpoint(port: u16) -> Seq<char> {
    "http://127.0.0.1:"@ + decimal(port as nat)
}

pub fn proxy_endpoint_text(port: u16) -> (r: String)
    ensures
        r@ == proxy_endpoint(port),
{
    let mut out = owned("http://127.0.0.1:");
    let digits = decimal_string(port as u64);
    out.append(digits.as_str());
    out
}

pub open spec fn proxy_variables() -> Seq<Seq<char>> {
    seq![
        "HTTP_PROXY"@,
        "HTTPS_PROXY"@,
        "ALL_PROXY"@,
        "WS_PROXY"@,
        "WSS_PROXY"@,
        "http_proxy"@,
        "https_proxy"@,
        "all_proxy"@,
        "ws_proxy"@,
        "wss_proxy"@,
    ]
}

pub open spec fn bypass_list() -> Seq<char> {
    "localhost,127.0.0.1,::1"@
}

pub open spec fn pair_views(v: Seq<(String, String)>) -> Seq<(Seq<char>, Seq<char>)> {
    v.map_values(|p: (String, String)| (p.0@, p.1@))
}

/// The environment a launched program gets on top of its inherited one: every
/// proxy variable points at the local proxy, loopback addresses bypass it.
pub open spec fn launch_environment(port: u16) -> Seq<(Seq<char>, Seq<char>)> {
    proxy_variables().map_values(|k: Seq<char>| (k, proxy_endpoint(port))) + seq![
        ("NO_PROXY"@, bypass_list()),
        ("no_proxy"@, bypass_list()),
    ]
}

/// The child-only environment of a launch.
pub fn proxy_environment(port: u16) -> (r: Vec<(String, String)>)
    ensures
        pair_views(r@) == launch_environment(port),
{
    let endpoint = proxy_endpoint_text(port);
    let keys: Vec<&str> = vec![
        "HTTP_PROXY",
        "HTTPS_PROXY",
        "ALL_PROXY",
        "WS_PROXY",
        "WSS_PROXY",
        "http_proxy",
        "https_proxy",
        "all_proxy",
        "ws_proxy",
        "wss_proxy",
    ];
    let ghost key_views = seq![
        "HTTP_PROXY"@,
        "HTTPS_PROXY"@,
        "ALL_PROXY"@,
        "WS_PROXY"@,
        "WSS_PROXY"@,
        "http_proxy"@,
        "https_proxy"@,
        "all_proxy"@,
        "ws_proxy"@,
        "wss_proxy"@,
    ];
    assert(keys@.map_values(|k: &str| k@) =~= key_views);
    let mut out: Vec<(String, String)> = Vec::new();
    let mut i: usize = 0;
    while i < keys.len()
        invariant
            i <= keys.len(),
            keys@.len() == 10,
            keys@.map_values(|k: &str| k@) == proxy_variables(),
            endpoint@ == proxy_endpoint(port),
            pair_views(out@) == proxy_variables().take(i as int).map_values(
                |k: Seq<char>| (k, proxy_endpoint(port)),
            ),
        decreases keys.len() - i,
    {
        let ghost prev = out@;
        out.push((owned(keys[i]), owned(endpoint.as_str())));
        proof {
            assert(keys@.map_values(|k: &str| k@)[i as int] == keys@[i as int]@);
            assert(pair_views(out@) =~= pair_views(prev).push((keys@[i as int]@, endpoint@)));
            assert(proxy_variables().take(i + 1) =~= proxy_variables().take(i as int).push(
                proxy_variables()[i as int],
            ));
        }
        i = i + 1;
        assert(pair_views(out@) =~= proxy_variables().take(i as int).map_values(
            |k: Seq<char>| (k, proxy_endpoint(port)),
        ));
    }
    out.push((owned("NO_PROXY"), owned("localhost,127.0.0.1,::1")));
    out.push((owned("no_proxy"), owned("localhost,127.0.0.1,::1")));
    assert(proxy_variables().take(10) =~= proxy_variables());
    assert(pair_views(out@) =~= launch_environment(port));
    out
}

/// The switches Chromium mode puts before the program's own arguments.
pub open spec fn managed_arguments(mode: ProgramProxyMode, port: u16) -> Seq<Seq<char>> {
    if mode == ProgramProxyMode::Chromium {
        seq!["--proxy-server="@ + proxy_endpoint(port), "--disable-quic"@]
    } else {
        Seq::empty()
    }
}

/// Arguments of a launch: the managed switches first, so that a user `--` cannot
/// hide them, then the program's arguments literally, without a shell.
pub fn launch_arguments(program: &ProxyProgram, port: u16) -> (r: Vec<String>)
    ensures
        views(r@) == managed_arguments(program.mode, port) + views(program.arguments@),
{
    let mut out: Vec<String> = Vec::new();
    if program.mode == ProgramProxyMode::Chromium {
        let endpoint = proxy_endpoint_text(port);
        let mut flag = owned("--proxy-server=");
        flag.append(endpoint.as_str());
        out.push(flag);
        out.push(owned("--disable-quic"));
    }
    let ghost start = views(out@);
    assert(start =~= managed_arguments(program.mode, port));
    let mut i: usize = 0;
    while i < program.arguments.len()
        invariant
            i <= program.arguments.len(),
            views(out@) == start + views(program.arguments@).take(i as int),
        decreases program.arguments.len() - i,
    {
        let ghost prev = out@;
        out.push(owned(program.arguments[i].as_str()));
        assert(views(out@) =~= views(prev).push(program.arguments@[i as int]@));
        assert(views(program.arguments@).take(i + 1) =~= views(program.arguments@).take(
            i as int,
        ).push(program.arguments@[i as int]@));
        i = i + 1;
        assert(views(out@) =~= start + views(program.arguments@).take(i as int));
    }
    assert(views(program.arguments@).take(program.arguments.len() as int) =~= views(
        program.arguments@,
    ));
    out
}


/// A launched program finds every proxy variable, in upper and lower case, set
/// to the local endpoint `http://127.0.0.1:<port>`, and loopback addresses in
/// `NO_PROXY`/`no_proxy`; nothing else is set.
pub proof fn every_proxy_variable_points_at_the_local_endpoint(port: u16)
    ensures
        launch_environment(port).len() == 12,
        ({
            let e = launch_environment(port);
            let url = "http://127.0.0.1:"@ + decimal(port as nat);
            &&& e[0] == ("HTTP_PROXY"@, url)
            &&& e[1] == ("HTTPS_PROXY"@, url)
            &&& e[2] == ("ALL_PROXY"@, url)
            &&& e[3] == ("WS_PROXY"@, url)
            &&& e[4] == ("WSS_PROXY"@, url)
            &&& e[5] == ("http_proxy"@, url)
            &&& e[6] == ("https_proxy"@, url)
            &&& e[7] == ("all_proxy"@, url)
            &&& e[8] == ("ws_proxy"@, url)
            &&& e[9] == ("wss_proxy"@, url)
            &&& e[10] == ("NO_PROXY"@, "localhost,127.0.0.1,::1"@)
            &&& e[11] == ("no_proxy"@, "localhost,127.0.0.1,::1"@)
        }),
{
}

} // verus!
