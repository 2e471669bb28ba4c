use vstd::prelude::*;
use vstd::string::*;
use crate::date::{valid_date, is_digit, digit_val, validate_date, today_string, epoch_date};
use crate::store::{
    Task, Row, Filter, TaskError, views_of, filter_rows, mark_rows, remove_rows, table_of,
    high_mark_of, wf_store, string_eq_lit, list_tasks, add_task, mark_done, mark_undone,
    remove_task,
};
use rusqlite::Connection;

verus! {

pub open spec fn all_digits(s: Seq<char>) -> bool {
    forall|i: int| 0 <= i < s.len() ==> is_digit(#[trigger] s[i])
}

/// The value of a digit string read in base ten.
pub open spec fn digits_val(s: Seq<char>) -> int
    decreases s.len(),
{
    if s.len() == 0 {
        0
    } else {
        10 * digits_val(s.drop_last()) + digit_val(s.last())
    }
}

/// The shape of an integer argument: digits, under an optional single sign.
pub open spec fn int_literal_shape(s: Seq<char>) -> bool {
    if s.len() == 0 {
        false
    } else if s[0] == '-' || s[0] == '+' {
        s.len() >= 2 && all_digits(s.subrange(1, s.len() as int))
    } else {
        all_digits(s)
    }
}

pub open spec fn int_literal_val(s: Seq<char>) -> int {
    if s.len() > 0 && s[0] == '-' {
        -digits_val(s.subrange(1, s.len() as int))
    } else if s.len() > 0 && s[0] == '+' {
        digits_val(s.subrange(1, s.len() as int))
    } else {
        digits_val(s)
    }
}

/// An id argument is accepted exactly when it is an integer literal whose
/// value fits a 64-bit signed integer.
pub open spec fn parses_as_i64(s: Seq<char>) -> bool {
    int_literal_shape(s) && -0x8000_0000_0000_0000 <= int_literal_val(s) <= 0x7fff_ffff_ffff_ffff
}

proof fn lemma_digits_val_nonneg(s: Seq<char>)
    requires
        all_digits(s),
    ensures
        digits_val(s) >= 0,
    decreases s.len(),
{
    if s.len() > 0 {
        assert(forall|i: int|
            0 <= i < s.drop_last().len() ==> is_digit(#[trigger] s.drop_last()[i]));
        lemma_digits_val_nonneg(s.drop_last());
    }
}

/// Reading more digits never shrinks the value.
proof fn lemma_digits_val_take_le(s: Seq<char>, k: int)
    requires
        all_digits(s),
        0 <= k <= s.len(),
    ensures
        0 <= digits_val(s.take(k)) <= digits_val(s),
    decreases s.len(),
{
    if k == s.len() {
        assert(s.take(k) =~= s);
        lemma_digits_val_nonneg(s);
    } else {
        let dl = s.drop_last();
        assert(forall|i: int| 0 <= i < dl.len() ==> is_digit(#[trigger] dl[i]));
        assert(s.take(k) =~= dl.take(k));
        lemma_digits_val_take_le(dl, k);
        assert(is_digit(s.last()));
    }
}

/// Parses an id argument, returning its value exactly when the argument is an
/// integer literal that fits a 64-bit signed integer.
pub fn parse_id(s: &String) -> (r: Option<i64>)
    ensures
        r is Some <==> parses_as_i64(s@),
        r matches Some(v) ==> v as int == int_literal_val(s@),
{
    let st = s.as_str();
    let n = st.unicode_len();
    if n == 0 {
        return None;
    }
    let c0 = st.get_char(0);
    let neg = c0 == '-';
    let signed = neg || c0 == '+';
    let start: usize = if signed {
        1
    } else {
        0
    };
    if n == start {
        return None;
    }
    let ghost digits = s@.subrange(start as int, n as int);
    let mut acc: u64 = 0;
    let mut i: usize = start;
    while i < n
        invariant
            start <= i <= n,
            start == 0 || start == 1,
            signed ==> start == 1,
            !signed ==> start == 0,
            signed <==> (s@[0] == '-' || s@[0] == '+'),
            neg <==> s@[0] == '-',
            n == s@.len(),
            st@ == s@,
            n > start,
            digits == s@.subrange(start as int, n as int),
            all_digits(s@.subrange(start as int, i as int)),
            acc as int == digits_val(s@.subrange(start as int, i as int)),
        decreases n - i,
    {
        let c = st.get_char(i);
        let u = c as u32;
        if u < 48 || u > 57 {
            proof {
                assert(!is_digit(s@[i as int]));
                assert(digits[i - start] == s@[i as int]);
                assert(!all_digits(digits));
                if int_literal_shape(s@) {
                    if start == 1 {
                        assert(digits =~= s@.subrange(1, n as int));
                        assert(all_digits(digits));
                    } else {
                        assert(!(s@[0] == '-' || s@[0] == '+'));
                        assert(digits =~= s@);
                        assert(all_digits(digits));
                    }
                    assert(false);
                }
            }
            return None;
        }
        let d: u64 = (u - 48) as u64;
        proof {
            let pre = s@.subrange(start as int, i as int);
            let ext = s@.subrange(start as int, i as int + 1);
            assert(ext.drop_last() =~= pre);
            assert(ext.last() == s@[i as int]);
            assert(is_digit(s@[i as int]) && d as int == digit_val(s@[i as int]));
            assert(forall|j: int| 0 <= j < ext.len() ==> is_digit(#[trigger] ext[j]));
        }
        let a10 = match acc.checked_mul(10) {
            Some(a) => a,
            None => {
                proof {
                    lemma_parse_overflow(s@, start as int, i as int, n as int);
                }
                return None;
            },
        };
        let acc2 = match a10.checked_add(d) {
            Some(a) => a,
            None => {
                proof {
                    lemma_parse_overflow(s@, start as int, i as int, n as int);
                }
                return None;
            },
        };
        acc = acc2;
        i += 1;
    }
    proof {
        assert(digits =~= s@.subrange(start as int, i as int));
        assert(int_literal_shape(s@)) by {
            if start == 1 {
                assert(digits =~= s@.subrange(1, n as int));
            } else {
                assert(digits =~= s@);
            }
        }
    }
    if neg {
        if acc > 0x8000_0000_0000_0000u64 {
            proof {
                assert(int_literal_val(s@) == -(acc as int));
            }
            return None;
        }
        if acc == 0x8000_0000_0000_0000u64 {
            return Some(i64::MIN);
        }
        Some(-(acc as i64))
    } else {
        if acc > 0x7fff_ffff_ffff_ffffu64 {
            proof {
                assert(int_literal_val(s@) == acc as int);
            }
            return None;
        }
        Some(acc as i64)
    }
}

/// When the accumulated prefix already overflows, the whole argument is out
/// of range, whatever digits follow.
proof fn lemma_parse_overflow(s: Seq<char>, start: int, i: int, n: int)
    requires
        start == 0 || start == 1,
        start == 1 <==> (s[0] == '-' || s[0] == '+'),
        start <= i < n == s.len(),
        all_digits(s.subrange(start, i)),
        is_digit(s[i]),
        10 * digits_val(s.subrange(start, i)) + digit_val(s[i]) > 0xffff_ffff_ffff_ffff,
    ensures
        !parses_as_i64(s),
{
    if parses_as_i64(s) {
        let digits = s.subrange(start, n);
        assert(all_digits(digits)) by {
            if start == 1 {
                assert(digits =~= s.subrange(1, n));
            } else {
                assert(digits =~= s);
            }
        }
        let k = i - start;
        assert(digits.take(k + 1).drop_last() =~= s.subrange(start, i));
        assert(digits.take(k + 1).last() == s[i]);
        assert(digits_val(digits.take(k + 1)) > 0xffff_ffff_ffff_ffff);
        lemma_digits_val_take_le(digits, k + 1);
        assert(digits_val(digits) > 0xffff_ffff_ffff_ffff);
        assert(int_literal_val(s) == if s[0] == '-' {
            -digits_val(digits)
        } else {
            digits_val(digits)
        }) by {
            if start == 1 {
                assert(digits =~= s.subrange(1, n));
            } else {
                assert(digits =~= s);
                assert(s[0] != '-' && s[0] != '+');
            }
        }
        assert(false);
    }
}

/// The one store call (or informational branch) a command line asks for.
pub enum Action {
    Usage,
    Help,
    List(Filter),
    Add { name: String, date: Option<String> },
    SetDone { id: i64, done: bool },
    Remove { id: i64 },
    Unrecognized,
}

/// The mathematical image of an `Action`.
pub enum ActionV {
    Usage,
    Help,
    List(Filter),
    Add { name: Seq<char>, date: Option<Seq<char>> },
    SetDone { id: int, done: bool },
    Remove { id: int },
    Unrecognized,
}

impl View for Action {
    type V = ActionV;

    open spec fn view(&self) -> ActionV {
        match self {
            Action::Usage => ActionV::Usage,
            Action::Help => ActionV::Help,
            Action::List(f) => ActionV::List(*f),
            Action::Add { name, date } => ActionV::Add {
                name: name@,
                date: match date {
                    Some(d) => Some(d@),
                    None => None,
                },
            },
            Action::SetDone { id, done } => ActionV::SetDone { id: *id as int, done: *done },
            Action::Remove { id } => ActionV::Remove { id: *id as int },
            Action::Unrecognized => ActionV::Unrecognized,
        }
    }
}

pub open spec fn argv_view(args: Seq<String>) -> Seq<Seq<char>> {
    args.map_values(|s: String| s@)
}

pub open spec fn spec_parse_id(argv: Seq<Seq<char>>) -> Result<int, TaskError> {
    if argv.len() < 3 {
        Err(TaskError::InvalidArgumentCount)
    } else if parses_as_i64(argv[2]) {
        Ok(int_literal_val(argv[2]))
    } else {
        Err(TaskError::InvalidId)
    }
}

/// How an argument vector (program name first) reads as an action: the
/// dispatcher's whole argument-to-operation mapping.
pub open spec fn spec_parse(argv: Seq<Seq<char>>) -> Result<ActionV, TaskError> {
    if argv.len() <= 1 {
        Ok(ActionV::Usage)
    } else if argv[1] == "help"@ {
        Ok(ActionV::Help)
    } else if argv[1] == "list"@ {
        if argv.len() == 2 {
            Ok(ActionV::List(Filter::All))
        } else if argv[2] == "done"@ {
            Ok(ActionV::List(Filter::Done))
        } else if argv[2] == "not-done"@ {
            Ok(ActionV::List(Filter::NotDone))
        } else {
            Err(TaskError::InvalidFilter)
        }
    } else if argv[1] == "add"@ {
        if argv.len() == 4 {
            if valid_date(argv[3]) {
                Ok(ActionV::Add { name: argv[2], date: Some(argv[3]) })
            } else {
                Err(TaskError::InvalidDate)
            }
        } else if argv.len() == 3 {
            Ok(ActionV::Add { name: argv[2], date: None })
        } else {
            Err(TaskError::InvalidArgumentCount)
        }
    } else if argv[1] == "done"@ {
        match spec_parse_id(argv) {
            Ok(id) => Ok(ActionV::SetDone { id, done: true }),
            Err(e) => Err(e),
        }
    } else if argv[1] == "undone"@ {
        match spec_parse_id(argv) {
            Ok(id) => Ok(ActionV::SetDone { id, done: false }),
            Err(e) => Err(e),
        }
    } else if argv[1] == "remove"@ {
        match spec_parse_id(argv) {
            Ok(id) => Ok(ActionV::Remove { id }),
            Err(e) => Err(e),
        }
    } else {
        Ok(ActionV::Unrecognized)
    }
}

/// Turns the argument vector into the one action it asks for, or the input
/// error that rules it out; no store call is made here.
pub fn parse_command(args: &Vec<String>) -> (r: Result<Action, TaskError>)
    ensures
        r matches Ok(a) ==> spec_parse(argv_view(args@)) == Ok::<ActionV, TaskError>(a@),
        r matches Err(e) ==> spec_parse(argv_view(args@)) == Err::<ActionV, TaskError>(e),
{
    if args.len() <= 1 {
        return Ok(Action::Usage);
    }
    let cmd = &args[1];
    if string_eq_lit(cmd, "help") {
        return Ok(Action::Help);
    }
    if string_eq_lit(cmd, "list") {
        if args.len() == 2 {
            return Ok(Action::List(Filter::All));
        }
        let word = &args[2];
        if string_eq_lit(word, "done") {
            return Ok(Action::List(Filter::Done));
        }
        if string_eq_lit(word, "not-done") {
            return Ok(Action::List(Filter::NotDone));
        }
        return Err(TaskError::InvalidFilter);
    }
    if string_eq_lit(cmd, "add") {
        if args.len() == 4 {
            if validate_date(&args[3]) {
                return Ok(Action::Add { name: args[2].clone(), date: Some(args[3].clone()) });
            }
            return Err(TaskError::InvalidDate);
        }
        if args.len() == 3 {
            return Ok(Action::Add { name: args[2].clone(), date: None });
        }
        return Err(TaskError::InvalidArgumentCount);
    }
    if string_eq_lit(cmd, "done") {
        if args.len() < 3 {
            return Err(TaskError::InvalidArgumentCount);
        }
        return match parse_id(&args[2]) {
            Some(id) => Ok(Action::SetDone { id, done: true }),
            None => Err(TaskError::InvalidId),
        };
    }
    if string_eq_lit(cmd, "undone") {
        if args.len() < 3 {
            return Err(TaskError::InvalidArgumentCount);
        }
        return match parse_id(&args[2]) {
            Some(id) => Ok(Action::SetDone { id, done: false }),
            None => Err(TaskError::InvalidId),
        };
    }
    if string_eq_lit(cmd, "remove") {
        if args.len() < 3 {
            return Err(TaskError::InvalidArgumentCount);
        }
        return match parse_id(&args[2]) {
            Some(id) => Ok(Action::Remove { id }),
            None => Err(TaskError::InvalidId),
        };
    }
    Ok(Action::Unrecognized)
}

/// What one dispatched command reports back; printing is the caller's side.
pub enum Outcome {
    Usage,
    Help,
    Unrecognized,
    Tasks(Vec<Task>),
    Changed,
}

/// A date may only ride along on an add when the validator accepts it.
pub open spec fn action_dates_valid(a: ActionV) -> bool {
    match a {
        ActionV::Add { date: Some(d), .. } => valid_date(d),
        _ => true,
    }
}

/// What dispatching one action does to the table and its water mark, and
/// reports back, with the given default for an add that names no date. A
/// successful add appends exactly one task under the id one above the mark,
/// so a fresh store's first task gets id 1, and no id ever comes back.
pub open spec fn dispatch_post(
    a: ActionV,
    default_date: Seq<char>,
    pre: Seq<Row>,
    post: Seq<Row>,
    pre_mark: int,
    post_mark: int,
    r: Result<Outcome, TaskError>,
) -> bool {
    match a {
        ActionV::Usage => r == Ok::<Outcome, TaskError>(Outcome::Usage) && post == pre && post_mark
            == pre_mark,
        ActionV::Help => r == Ok::<Outcome, TaskError>(Outcome::Help) && post == pre && post_mark
            == pre_mark,
        ActionV::Unrecognized => r == Ok::<Outcome, TaskError>(Outcome::Unrecognized) && post
            == pre && post_mark == pre_mark,
        ActionV::List(f) => post == pre && post_mark == pre_mark && (match r {
            Ok(o) => o matches Outcome::Tasks(v) && views_of(v@) == filter_rows(pre, f),
            Err(e) => e == TaskError::StorageError,
        }),
        ActionV::Add { name, date } => (match r {
            Ok(o) => o == Outcome::Changed && post_mark == pre_mark + 1 && post == pre.push(
                (
                    pre_mark + 1,
                    name,
                    false,
                    (match date {
                        Some(d) => d,
                        None => default_date,
                    }),
                ),
            ),
            Err(e) => e == TaskError::StorageError && post == pre && post_mark == pre_mark,
        }),
        ActionV::SetDone { id, done } => post_mark == pre_mark && (match r {
            Ok(o) => o == Outcome::Changed && post == mark_rows(pre, id, done),
            Err(e) => e == TaskError::StorageError && post == pre,
        }),
        ActionV::Remove { id } => post_mark == pre_mark && (match r {
            Ok(o) => o == Outcome::Changed && post == remove_rows(pre, id),
            Err(e) => e == TaskError::StorageError && post == pre,
        }),
    }
}

/// Dispatches one action against the store, defaulting a dateless add to the
/// given day.
pub fn run_action_with_today(conn: &mut Connection, action: &Action, today: &String) -> (r: Result<
    Outcome,
    TaskError,
>)
    requires
        valid_date(today@),
        action_dates_valid(action@),
        wf_store(*old(conn)),
    ensures
        wf_store(*final(conn)),
        dispatch_post(
            action@,
            today@,
            table_of(*old(conn)),
            table_of(*final(conn)),
            high_mark_of(*old(conn)),
            high_mark_of(*final(conn)),
            r,
        ),
{
    match action {
        Action::Usage => Ok(Outcome::Usage),
        Action::Help => Ok(Outcome::Help),
        Action::Unrecognized => Ok(Outcome::Unrecognized),
        Action::List(f) => match list_tasks(conn, *f) {
            Ok(v) => Ok(Outcome::Tasks(v)),
            Err(_) => Err(TaskError::StorageError),
        },
        Action::Add { name, date } => {
            let chosen: &String = match date {
                Some(d) => d,
                None => today,
            };
            match add_task(conn, name, chosen) {
                Ok(_) => Ok(Outcome::Changed),
                Err(_) => Err(TaskError::StorageError),
            }
        },
        Action::SetDone { id, done } => {
            let res = if *done {
                mark_done(conn, *id)
            } else {
                mark_undone(conn, *id)
            };
            match res {
                Ok(_) => Ok(Outcome::Changed),
                Err(_) => Err(TaskError::StorageError),
            }
        },
        Action::Remove { id } => match remove_task(conn, *id) {
            Ok(_) => Ok(Outcome::Changed),
            Err(_) => Err(TaskError::StorageError),
        },
    }
}

/// Dispatches one action, defaulting a dateless add to the current local day.
pub fn run_action(conn: &mut Connection, action: &Action) -> (r: Result<Outcome, TaskError>)
    requires
        action_dates_valid(action@),
        wf_store(*old(conn)),
    ensures
        wf_store(*final(conn)),
        exists|d: Seq<char>|
            #[trigger] valid_date(d) && dispatch_post(
                action@,
                d,
                table_of(*old(conn)),
                table_of(*final(conn)),
                high_mark_of(*old(conn)),
                high_mark_of(*final(conn)),
                r,
            ),
{
    let raw = today_string();
    let today = if validate_date(&raw) {
        raw
    } else {
        epoch_date()
    };
    let r = run_action_with_today(conn, action, &today);
    proof {
        assert(valid_date(today@) && dispatch_post(
            action@,
            today@,
            table_of(*old(conn)),
            table_of(*final(conn)),
            high_mark_of(*old(conn)),
            high_mark_of(*final(conn)),
            r,
        ));
    }
    r
}

/// One whole invocation after the connection is open: reads the argument
/// vector as a command, makes at most one store call, and reports the outcome
/// or the error; an input error leaves the store untouched.
pub fn run(conn: &mut Connection, args: &Vec<String>) -> (r: Result<Outcome, TaskError>)
    requires
        wf_store(*old(conn)),
    ensures
        wf_store(*final(conn)),
        (match spec_parse(argv_view(args@)) {
            Err(e) => r == Err::<Outcome, TaskError>(e) && table_of(*final(conn)) == table_of(
                *old(conn),
            ) && high_mark_of(*final(conn)) == high_mark_of(*old(conn)),
            Ok(a) => exists|d: Seq<char>|
                #[trigger] valid_date(d) && dispatch_post(
                    a,
                    d,
                    table_of(*old(conn)),
                    table_of(*final(conn)),
                    high_mark_of(*old(conn)),
                    high_mark_of(*final(conn)),
                    r,
                ),
        }),
{
    match parse_command(args) {
        Err(e) => Err(e),
        Ok(action) => {
            proof {
                assert(action_dates_valid(action@));
            }
            run_action(conn, &action)
        },
    }
}

} // verus!
