//! System call filters: a program for the kernel's packet filter machine that
//! lets the listed calls through.

use vstd::prelude::*;

verus! {

pub const ARCH_OFFSET: u32 = 4;
pub const NUMBER_OFFSET: u32 = 0;
pub const LOAD_WORD_ABSOLUTE: u16 = 0x20;
pub const JUMP_EQUAL: u16 = 0x15;
pub const RETURN: u16 = 0x06;
pub const RET_KILL_PROCESS: u32 = 0x8000_0000;
pub const RET_ALLOW: u32 = 0x7fff_0000;
pub const RET_LOG: u32 = 0x7ffc_0000;
pub const AUDIT_ARCH_X86_64: u32 = 0xc000_003e;
pub const AUDIT_ARCH_AARCH64: u32 = 0xc000_00b7;

#[derive(Clone, Copy, Debug, PartialEq, Eq, Structural)]
pub enum Profile {
    DataPlane,
    NamespaceInit,
    Supervisor,
}

/// One instruction of a filter.
#[derive(Clone, Copy, Debug, PartialEq, Eq, Structural)]
pub struct Instruction {
    pub code: u16,
    pub jt: u8,
    pub jf: u8,
    pub k: u32,
}

#[derive(Clone, Copy, Debug, PartialEq, Eq, Structural)]
pub enum SeccompError {
    /// A call in the profile is negative, or has no 32-bit number.
    InvalidSyscall,
    FilterTooLong,
}

/// What the kernel does with a call when it runs `filter` from `at` on, with
/// `word` in the accumulator; nothing if the program runs off its end or does
/// something that no filter here does.
pub open spec fn decision(
    filter: Seq<Instruction>,
    arch: u32,
    number: u32,
    at: int,
    word: u32,
) -> Option<u32>
    decreases filter.len() - at + 256,
{
    if at < 0 || at >= filter.len() {
        None
    } else {
        let step = filter[at];
        if step.code == LOAD_WORD_ABSOLUTE {
            if step.k == ARCH_OFFSET {
                decision(filter, arch, number, at + 1, arch)
            } else if step.k == NUMBER_OFFSET {
                decision(filter, arch, number, at + 1, number)
            } else {
                None
            }
        } else if step.code == JUMP_EQUAL {
            decision(
                filter,
                arch,
                number,
                at + 1 + if word == step.k {
                    step.jt as int
                } else {
                    step.jf as int
                },
                word,
            )
        } else if step.code == RETURN {
            Some(step.k)
        } else {
            None
        }
    }
}

pub open spec fn statement(code: u16, k: u32) -> Instruction {
    Instruction { code, jt: 0, jf: 0, k }
}

pub open spec fn jump(code: u16, k: u32, jt: u8, jf: u8) -> Instruction {
    Instruction { code, jt, jf, k }
}

/// A comparison and a return for each of the calls.
pub open spec fn allowances(syscalls: Seq<i64>) -> Seq<Instruction> {
    Seq::new(
        2 * syscalls.len(),
        |i: int|
            if i % 2 == 0 {
                jump(JUMP_EQUAL, syscalls[i / 2] as u32, 0, 1)
            } else {
                statement(RETURN, RET_ALLOW)
            },
    )
}

/// The filter: first the architecture, then each call, then the default.
pub open spec fn filter_of(arch: u32, syscalls: Seq<i64>, default_action: u32) -> Seq<Instruction> {
    seq![
        statement(LOAD_WORD_ABSOLUTE, ARCH_OFFSET),
        jump(JUMP_EQUAL, arch, 1, 0),
        statement(RETURN, RET_KILL_PROCESS),
        statement(LOAD_WORD_ABSOLUTE, NUMBER_OFFSET),
    ] + allowances(syscalls) + seq![statement(RETURN, default_action)]
}

/// Whether every call has a number.
pub open spec fn numbered(syscalls: Seq<i64>) -> bool {
    forall|i: int| 0 <= i < syscalls.len() ==> 0 <= #[trigger] syscalls[i] <= u32::MAX
}

pub fn build_filter(arch: u32, syscalls: &[i64], default_action: u32) -> (result: Result<
    Vec<Instruction>,
    SeccompError,
>)
    ensures
        match result {
            Ok(filter) => {
                &&& numbered(syscalls@)
                &&& filter@ == filter_of(arch, syscalls@, default_action)
            },
            Err(error) => !numbered(syscalls@) && error == SeccompError::InvalidSyscall,
        },
{
    let mut filter: Vec<Instruction> = vec![
        Instruction { code: LOAD_WORD_ABSOLUTE, jt: 0, jf: 0, k: ARCH_OFFSET },
        Instruction { code: JUMP_EQUAL, jt: 1, jf: 0, k: arch },
        Instruction { code: RETURN, jt: 0, jf: 0, k: RET_KILL_PROCESS },
        Instruction { code: LOAD_WORD_ABSOLUTE, jt: 0, jf: 0, k: NUMBER_OFFSET },
    ];
    let ghost start = filter@;
    assert(start =~= seq![
        statement(LOAD_WORD_ABSOLUTE, ARCH_OFFSET),
        jump(JUMP_EQUAL, arch, 1, 0),
        statement(RETURN, RET_KILL_PROCESS),
        statement(LOAD_WORD_ABSOLUTE, NUMBER_OFFSET),
    ]);
    assert(filter@ =~= start + allowances(syscalls@.take(0)));
    let mut done: usize = 0;
    while done < syscalls.len()
        invariant
            done <= syscalls@.len(),
            forall|i: int| 0 <= i < done ==> 0 <= #[trigger] syscalls@[i] <= u32::MAX,
            filter@ == start + allowances(syscalls@.take(done as int)),
        decreases syscalls@.len() - done,
    {
        let call: i64 = syscalls[done];
        if call < 0 || call > 0xffff_ffff {
            assert(!(0 <= syscalls@[done as int] <= u32::MAX));
            return Err(SeccompError::InvalidSyscall);
        }
        filter.push(Instruction { code: JUMP_EQUAL, jt: 0, jf: 1, k: call as u32 });
        filter.push(Instruction { code: RETURN, jt: 0, jf: 0, k: RET_ALLOW });
        done = done + 1;
        assert(filter@ =~= start + allowances(syscalls@.take(done as int)));
    }
    assert(syscalls@.take(done as int) =~= syscalls@);
    filter.push(Instruction { code: RETURN, jt: 0, jf: 0, k: default_action });
    assert(filter@ =~= filter_of(arch, syscalls@, default_action));
    Ok(filter)
}

/// What a call that is not listed comes to: with tracing it is written down and
/// done, otherwise the process is killed.
#[must_use]
pub fn default_action(trace: bool) -> (action: u32)
    ensures
        action == if trace {
            RET_LOG
        } else {
            RET_KILL_PROCESS
        },
{
    if trace {
        RET_LOG
    } else {
        RET_KILL_PROCESS
    }
}

/// The length of a filter as the kernel takes it.
pub fn program_len(filter: &[Instruction]) -> (result: Result<u16, SeccompError>)
    ensures
        match result {
            Ok(len) => len == filter@.len(),
            Err(error) => filter@.len() > u16::MAX && error == SeccompError::FilterTooLong,
        },
{
    if filter.len() > 0xffff {
        return Err(SeccompError::FilterTooLong);
    }
    Ok(filter.len() as u16)
}

/// From the comparison of the call numbered `from` on, the filter decides by the
/// calls from there on.
proof fn lemma_decides_from(
    arch: u32,
    syscalls: Seq<i64>,
    default_action: u32,
    number: u32,
    from: int,
)
    requires
        numbered(syscalls),
        0 <= from <= syscalls.len(),
    ensures
        decision(filter_of(arch, syscalls, default_action), arch, number, 4 + 2 * from, number)
            == Some(
            if exists|i: int| from <= i < syscalls.len() && #[trigger] syscalls[i] == number {
                RET_ALLOW
            } else {
                default_action
            },
        ),
    decreases syscalls.len() - from,
{
    let filter = filter_of(arch, syscalls, default_action);
    let at = 4 + 2 * from;
    if from == syscalls.len() {
        assert(filter[at] == statement(RETURN, default_action));
    } else {
        assert(allowances(syscalls)[2 * from] == jump(
            JUMP_EQUAL,
            syscalls[from] as u32,
            0,
            1,
        ));
        assert(allowances(syscalls)[2 * from + 1] == statement(RETURN, RET_ALLOW));
        assert(filter[at] == allowances(syscalls)[2 * from]);
        assert(filter[at + 1] == allowances(syscalls)[2 * from + 1]);
        assert(0 <= syscalls[from] <= u32::MAX);
        if syscalls[from] == number {
            assert(decision(filter, arch, number, at + 1, number) == Some(RET_ALLOW));
        } else {
            lemma_decides_from(arch, syscalls, default_action, number, from + 1);
            assert(decision(filter, arch, number, at, number) == decision(
                filter,
                arch,
                number,
                at + 2,
                number,
            ));
        }
    }
}

/// A call of another architecture kills the process. Of this one, exactly the
/// listed calls are let through, and the others meet the default.
pub proof fn law_filter_allows_the_listed_calls(
    arch: u32,
    syscalls: Seq<i64>,
    default_action: u32,
    caller_arch: u32,
    number: u32,
)
    requires
        numbered(syscalls),
    ensures
        decision(filter_of(arch, syscalls, default_action), caller_arch, number, 0, 0) == Some(
            if caller_arch != arch {
                RET_KILL_PROCESS
            } else if exists|i: int|
                0 <= i < syscalls.len() && #[trigger] syscalls[i] == number {
                RET_ALLOW
            } else {
                default_action
            },
        ),
{
    let filter = filter_of(arch, syscalls, default_action);
    assert(filter[0] == statement(LOAD_WORD_ABSOLUTE, ARCH_OFFSET));
    assert(filter[1] == jump(JUMP_EQUAL, arch, 1, 0));
    assert(filter[2] == statement(RETURN, RET_KILL_PROCESS));
    assert(filter[3] == statement(LOAD_WORD_ABSOLUTE, NUMBER_OFFSET));
    reveal_with_fuel(decision, 4);
    if caller_arch == arch {
        lemma_decides_from(arch, syscalls, default_action, number, 0);
        assert(decision(filter, arch, number, 3, arch) == decision(
            filter,
            arch,
            number,
            4,
            number,
        ));
    }
}

} // verus!
