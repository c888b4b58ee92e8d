//! The record of a running instance.

use crate::text::hex_digit;
use vstd::prelude::*;

verus! {

#[derive(Clone, Copy, Debug, PartialEq, Eq, Structural)]
pub enum InstanceError {
    /// The system gave no random octets.
    Random,
    /// The runtime path is not a real directory.
    NotADirectory,
    /// The runtime directory must be owned by the caller and closed to others.
    NotPrivate,
}

/// Two lower-case hexadecimal digits for each octet.
pub open spec fn hex_text(octets: Seq<u8>) -> Seq<u8> {
    Seq::new(
        2 * octets.len(),
        |i: int|
            if i % 2 == 0 {
                hex_digit((octets[i / 2] / 16) as nat)
            } else {
                hex_digit((octets[i / 2] % 16) as nat)
            },
    )
}

fn digit(value: u8) -> (b: u8)
    requires
        value < 16,
    ensures
        b == hex_digit(value as nat),
{
    if value < 10 {
        48 + value
    } else {
        87 + value
    }
}

/// The identifier that sixteen octets make.
#[must_use]
pub fn identifier(octets: [u8; 16]) -> (text: Vec<u8>)
    ensures
        text@ == hex_text(octets@),
        text@.len() == 32,
{
    let mut text: Vec<u8> = Vec::new();
    let mut i: usize = 0;
    while i < 16
        invariant
            i <= 16,
            text@.len() == 2 * i,
            forall|j: int| 0 <= j < 2 * i ==> #[trigger] text@[j] == hex_text(octets@)[j],
        decreases 16 - i,
    {
        let octet: u8 = octets[i];
        text.push(digit(octet / 16));
        text.push(digit(octet % 16));
        i = i + 1;
    }
    assert(text@ =~= hex_text(octets@));
    text
}

/// A fresh identifier: the hexadecimal text of sixteen octets.
pub fn random_identifier() -> (result: Result<Vec<u8>, InstanceError>)
    ensures
        match result {
            Ok(text) => exists|octets: [u8; 16]| text@ == #[trigger] hex_text(octets@),
            Err(error) => error == InstanceError::Random,
        },
{
    let mut octets = [0u8; 16];
    if !crate::random::fill(&mut octets) {
        return Err(InstanceError::Random);
    }
    Ok(identifier(octets))
}

proof fn lemma_hex_text_is_a_name(octets: Seq<u8>)
    requires
        octets.len() > 0,
    ensures
        super::config::is_name(hex_text(octets)),
{
    let text = hex_text(octets);
    assert forall|i: int| 0 <= i < text.len() implies super::config::is_name_octet(
        #[trigger] text[i],
    ) by {
        let octet = octets[i / 2];
        assert(octet / 16 < 16 && octet % 16 < 16);
    }
}

/// The identifier of an instance: the name it was given, or a fresh one.
pub fn choose_identifier(name: Option<&[u8]>) -> (result: Result<Vec<u8>, InstanceError>)
    ensures
        match result {
            Ok(text) => match name {
                Some(name) => text@ == name@,
                None => super::config::is_name(text@) && text@.len() == 32,
            },
            Err(error) => name is None && error == InstanceError::Random,
        },
{
    match name {
        Some(name) => {
            let mut text: Vec<u8> = Vec::new();
            crate::text::push_all(&mut text, name);
            assert(text@ =~= name@);
            Ok(text)
        },
        None => {
            let text = random_identifier()?;
            proof {
                let octets = choose|octets: [u8; 16]| text@ == #[trigger] hex_text(octets@);
                lemma_hex_text_is_a_name(octets@);
            }
            Ok(text)
        },
    }
}

/// What is known of a directory that is to hold instances.
#[derive(Clone, Copy, Debug, PartialEq, Eq, Structural)]
pub struct DirectoryFacts {
    pub is_directory: bool,
    pub is_symlink: bool,
    pub owner: u32,
    pub mode: u32,
}

/// A directory for instances is real, belongs to the caller, and is closed to
/// everybody else.
pub fn validate_owned_private_directory(facts: DirectoryFacts, caller: u32) -> (result: Result<
    (),
    InstanceError,
>)
    ensures
        result == if !facts.is_directory || facts.is_symlink {
            Err(InstanceError::NotADirectory)
        } else if facts.owner != caller || facts.mode & 0x3f != 0 {
            Err(InstanceError::NotPrivate)
        } else {
            Ok(())
        },
{
    if !facts.is_directory || facts.is_symlink {
        return Err(InstanceError::NotADirectory);
    }
    if facts.owner != caller || facts.mode & 0x3f != 0 {
        return Err(InstanceError::NotPrivate);
    }
    Ok(())
}

#[derive(Clone, Copy, Debug, PartialEq, Eq, Structural)]
pub enum InstanceState {
    Starting,
    Running,
    Exited,
}

/// What is written down about an instance.
pub struct InstanceMetadata {
    pub instance_id: Vec<u8>,
    pub nonce: Vec<u8>,
    pub version: Vec<u8>,
    pub started_unix_ms: u128,
    pub supervisor_pid: u32,
    /// The first of the data-plane processes.
    pub dataplane_pid: Option<i32>,
    pub dataplane_worker_pids: Vec<i32>,
    pub namespace_init_pid: Option<i32>,
    pub target_pid: Option<i32>,
    pub network_namespace_inode: Option<u64>,
    pub state: InstanceState,
}

impl InstanceMetadata {
    /// The record of an instance that starts.
    #[must_use]
    pub fn starting(
        instance_id: Vec<u8>,
        nonce: Vec<u8>,
        version: Vec<u8>,
        started_unix_ms: u128,
        supervisor_pid: u32,
    ) -> (metadata: InstanceMetadata)
        ensures
            metadata.instance_id == instance_id,
            metadata.nonce == nonce,
            metadata.version == version,
            metadata.started_unix_ms == started_unix_ms,
            metadata.supervisor_pid == supervisor_pid,
            metadata.dataplane_pid is None,
            metadata.dataplane_worker_pids@.len() == 0,
            metadata.namespace_init_pid is None,
            metadata.target_pid is None,
            metadata.network_namespace_inode is None,
            metadata.state == InstanceState::Starting,
    {
        InstanceMetadata {
            instance_id,
            nonce,
            version,
            started_unix_ms,
            supervisor_pid,
            dataplane_pid: None,
            dataplane_worker_pids: Vec::new(),
            namespace_init_pid: None,
            target_pid: None,
            network_namespace_inode: None,
            state: InstanceState::Starting,
        }
    }

    pub fn update_children(&mut self, dataplanes: Vec<i32>, namespace_init: i32, inode: u64)
        ensures
            *final(self) == (InstanceMetadata {
                dataplane_pid: if dataplanes@.len() > 0 {
                    Some(dataplanes@[0])
                } else {
                    None
                },
                dataplane_worker_pids: dataplanes,
                namespace_init_pid: Some(namespace_init),
                network_namespace_inode: Some(inode),
                ..*old(self)
            }),
    {
        self.dataplane_pid = if dataplanes.len() > 0 {
            Some(dataplanes[0])
        } else {
            None
        };
        self.dataplane_worker_pids = dataplanes;
        self.namespace_init_pid = Some(namespace_init);
        self.network_namespace_inode = Some(inode);
    }

    pub fn set_target(&mut self, target: i32)
        ensures
            *final(self) == (InstanceMetadata {
                target_pid: Some(target),
                state: InstanceState::Running,
                ..*old(self)
            }),
    {
        self.target_pid = Some(target);
        self.state = InstanceState::Running;
    }

    pub fn set_state(&mut self, state: InstanceState)
        ensures
            *final(self) == (InstanceMetadata { state, ..*old(self) }),
    {
        self.state = state;
    }

    /// Whether the record on disk is this instance's own, so that its files may
    /// be removed.
    #[must_use]
    pub fn owns(&self, recorded_nonce: Option<&[u8]>) -> (own: bool)
        ensures
            own == match recorded_nonce {
                Some(nonce) => nonce@ == self.nonce@,
                None => false,
            },
    {
        match recorded_nonce {
            Some(nonce) => crate::bytes::equal(nonce, &self.nonce),
            None => false,
        }
    }
}

/// An octet is written as two lower-case hexadecimal digits, the higher one
/// first.
pub proof fn law_octets_are_written_in_hexadecimal(octets: Seq<u8>, at: int)
    requires
        0 <= at < octets.len(),
    ensures
        hex_text(octets).len() == 2 * octets.len(),
        ({
            let high = octets[at] / 16;
            let low = octets[at] % 16;
            &&& hex_text(octets)[2 * at] == if high < 10 {
                48 + high
            } else {
                87 + high
            }
            &&& hex_text(octets)[2 * at + 1] == if low < 10 {
                48 + low
            } else {
                87 + low
            }
        }),
{
    assert((2 * at) / 2 == at && (2 * at + 1) / 2 == at);
}

} // verus!
