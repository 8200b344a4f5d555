//! What broken off transfers leave behind.

use vstd::multiset::Multiset;
use vstd::prelude::*;
use vstd::string::*;

use crate::ids::{Id, TransferId};
use crate::text::{chars_of, digit_char, hex_digit, hex_digits, hex_text, parse_hex_digit, push_hex};
use crate::transfer_client::error::{ClientError, IoKind};

verus! {

/// Whether a text is thirty-two hexadecimal digits.
pub open spec fn names_transfer(text: Seq<char>) -> bool {
    text.len() == 32 && forall|i: int| 0 <= i < 32 ==> hex_digit(#[trigger] text[i]) is Some
}

/// Whether a text is thirty-two hexadecimal digits.
pub fn is_transfer_id(value: &str) -> (yes: bool)
    ensures
        yes == names_transfer(value@),
{
    is_id(&chars_of(value))
}

/// Whether a text is thirty-two hexadecimal digits.
fn is_id(chars: &Vec<char>) -> (yes: bool)
    ensures
        yes == names_transfer(chars@),
{
    if chars.len() != 32 {
        return false;
    }
    let mut index: usize = 0;
    while index < 32
        invariant
            index <= 32,
            chars@.len() == 32,
            forall|i: int| 0 <= i < index ==> hex_digit(#[trigger] chars@[i]) is Some,
        decreases 32 - index,
    {
        if parse_hex_digit(chars[index]).is_none() {
            return false;
        }
        index = index + 1;
    }
    true
}

/// One more than the greatest number that so many digits write.
pub open spec fn hex_limit(count: nat) -> nat
    decreases count,
{
    if count == 0 {
        1
    } else {
        hex_limit((count - 1) as nat) * 16
    }
}

proof fn lemma_hex_limit()
    ensures
        hex_limit(32) == 0x1_0000_0000_0000_0000_0000_0000_0000_0000,
{
    reveal_with_fuel(hex_limit, 33);
}

proof fn lemma_limit_grows(count: nat, total: nat)
    requires
        count <= total,
    ensures
        hex_limit(count) <= hex_limit(total),
    decreases total,
{
    if count < total {
        lemma_limit_grows(count, (total - 1) as nat);
    }
}

/// The transfer that thirty-two hexadecimal digits name.
pub fn parse_transfer_id(value: &str) -> (id: Option<TransferId>)
    ensures
        match id {
            Some(id) => names_transfer(value@) && hex_digits(value@) == Some(id.value as nat),
            None => !names_transfer(value@),
        },
{
    let chars: Vec<char> = chars_of(value);
    if !is_id(&chars) {
        return None;
    }
    let mut number: u128 = 0;
    let mut index: usize = 0;
    assert(chars@.subrange(0, 0) =~= Seq::empty());
    while index < 32
        invariant
            index <= 32,
            chars@.len() == 32,
            names_transfer(chars@),
            hex_digits(chars@.subrange(0, index as int)) == Some(number as nat),
            number < hex_limit(index as nat),
        decreases 32 - index,
    {
        let ghost next = chars@.subrange(0, index + 1);
        proof {
            assert(next.drop_last() =~= chars@.subrange(0, index as int));
            assert(next.last() == chars@[index as int]);
            lemma_hex_limit();
            lemma_limit_grows((index + 1) as nat, 32);
        }
        let digit: u8 = match parse_hex_digit(chars[index]) {
            Some(digit) => digit,
            None => 0,
        };
        number = number * 16 + digit as u128;
        index = index + 1;
    }
    assert(chars@.subrange(0, 32) =~= chars@);
    Some(Id { value: number })
}

/// The name of a transfer in thirty-two hexadecimal digits.
pub fn id_text(id: TransferId) -> (text: String)
    ensures
        text@ == hex_text(id.value as nat, 32),
{
    let mut text: String = String::new();
    push_hex(&mut text, id.value, 32);
    assert(text@ =~= hex_text(id.value as nat, 32));
    text
}

/// The digits that write the name of a transfer name that transfer.
pub proof fn law_written_names_are_read(number: nat, count: nat)
    requires
        number < hex_limit(count),
    ensures
        hex_digits(hex_text(number, count)) == Some(number),
        hex_text(number, count).len() == count,
        forall|i: int|
            0 <= i < count ==> hex_digit(#[trigger] hex_text(number, count)[i]) is Some,
    decreases count,
{
    if count > 0 {
        let high = hex_text(number / 16, (count - 1) as nat);
        let text = hex_text(number, count);
        law_written_names_are_read(number / 16, (count - 1) as nat);
        assert(text.drop_last() =~= high);
        assert(hex_digit(digit_char(number % 16)) == Some(number % 16));
        assert forall|i: int| 0 <= i < count implies hex_digit(#[trigger] text[i]) is Some by {
            if i < count - 1 {
                assert(text[i] == high[i]);
            }
        }
    }
}

/// What a broken off transfer left behind.
#[derive(Debug, Clone, PartialEq, Eq)]
pub struct ResumeSession {
    pub transfer_id: String,
    pub partial_bytes: u64,
    pub state_files: usize,
}

/// What is known of what a broken off transfer left behind.
#[verifier::ext_equal]
pub struct SessionView {
    pub transfer_id: Seq<char>,
    pub partial_bytes: u64,
    pub state_files: usize,
}

impl View for ResumeSession {
    type V = SessionView;

    open spec fn view(&self) -> SessionView {
        SessionView {
            transfer_id: self.transfer_id@,
            partial_bytes: self.partial_bytes,
            state_files: self.state_files,
        }
    }
}

/// Whether a text stands after another one.
pub open spec fn text_after(left: Seq<char>, right: Seq<char>) -> bool
    decreases left.len(),
{
    if left.len() == 0 {
        false
    } else if right.len() == 0 {
        true
    } else if left[0] == right[0] {
        text_after(left.drop_first(), right.drop_first())
    } else {
        left[0] > right[0]
    }
}

/// What is known of sessions.
pub open spec fn session_views(sessions: Seq<ResumeSession>) -> Seq<SessionView> {
    sessions.map_values(|session: ResumeSession| session@)
}

/// Whether a directory holds what a transfer left behind.
pub open spec fn is_session(found: (ResumeSession, bool)) -> bool {
    found.1 && names_transfer(found.0.transfer_id@)
}

/// What transfers left behind, among the first `count` of what was found.
pub open spec fn sessions_among(found: Seq<(ResumeSession, bool)>, count: int) -> Seq<SessionView>
    decreases count,
{
    if count <= 0 {
        Seq::empty()
    } else if is_session(found[count - 1]) {
        sessions_among(found, count - 1).push(found[count - 1].0@)
    } else {
        sessions_among(found, count - 1)
    }
}

/// Whether sessions are in the order of their names.
pub open spec fn are_ordered(sessions: Seq<SessionView>) -> bool {
    forall|i: int, j: int|
        0 <= i < j < sessions.len() ==> !text_after(
            (#[trigger] sessions[i]).transfer_id,
            (#[trigger] sessions[j]).transfer_id,
        )
}

proof fn lemma_after_is_total(left: Seq<char>, right: Seq<char>)
    ensures
        text_after(left, right) ==> !text_after(right, left),
    decreases left.len(),
{
    if left.len() > 0 && right.len() > 0 && left[0] == right[0] {
        lemma_after_is_total(left.drop_first(), right.drop_first());
    }
}

proof fn lemma_after_goes_on(left: Seq<char>, middle: Seq<char>, right: Seq<char>)
    requires
        !text_after(left, middle),
        !text_after(middle, right),
    ensures
        !text_after(left, right),
    decreases left.len(),
{
    if left.len() > 0 && middle.len() > 0 && right.len() > 0 && left[0] == middle[0] && middle[0]
        == right[0] {
        lemma_after_goes_on(left.drop_first(), middle.drop_first(), right.drop_first());
    }
}

/// Whether a text stands after another one.
fn is_after(left: &str, right: &str) -> (yes: bool)
    ensures
        yes == text_after(left@, right@),
{
    let left: Vec<char> = chars_of(left);
    let right: Vec<char> = chars_of(right);
    let mut at: usize = 0;
    assert(left@.subrange(0, left@.len() as int) =~= left@);
    assert(right@.subrange(0, right@.len() as int) =~= right@);
    while at < left.len() && at < right.len() && left[at] == right[at]
        invariant
            at <= left@.len(),
            at <= right@.len(),
            text_after(left@, right@) == text_after(
                left@.subrange(at as int, left@.len() as int),
                right@.subrange(at as int, right@.len() as int),
            ),
        decreases left@.len() - at,
    {
        proof {
            let a = left@.subrange(at as int, left@.len() as int);
            let b = right@.subrange(at as int, right@.len() as int);
            assert(a.drop_first() =~= left@.subrange(at + 1, left@.len() as int));
            assert(b.drop_first() =~= right@.subrange(at + 1, right@.len() as int));
        }
        at = at + 1;
    }
    if at == left.len() {
        false
    } else if at == right.len() {
        true
    } else {
        left[at] > right[at]
    }
}

/// What transfers left behind, in the order of their names: of what was found, with
/// whether it is a directory, those directories whose names name transfers.
pub fn list_resume_sessions(found: Vec<(ResumeSession, bool)>) -> (sessions: Vec<ResumeSession>)
    ensures
        session_views(sessions@).to_multiset() == sessions_among(
            found@,
            found@.len() as int,
        ).to_multiset(),
        are_ordered(session_views(sessions@)),
{
    broadcast use vstd::seq_lib::group_to_multiset_ensures;

    let ghost all = found@;
    let mut found = found;
    let mut sessions: Vec<ResumeSession> = Vec::new();
    assert(session_views(sessions@) =~= Seq::empty());
    assert(found@ =~= all.subrange(0, all.len() as int));
    let ghost total = sessions_among(all, all.len() as int);
    assert(total.to_multiset() =~= sessions_among(all, found@.len() as int).to_multiset().add(
        session_views(sessions@).to_multiset(),
    ));
    while found.len() > 0
        invariant
            found@.len() <= all.len(),
            found@ == all.subrange(0, found@.len() as int),
            total == sessions_among(all, all.len() as int),
            total.to_multiset() == sessions_among(all, found@.len() as int).to_multiset().add(
                session_views(sessions@).to_multiset(),
            ),
            are_ordered(session_views(sessions@)),
        decreases found@.len(),
    {
        let ghost before = sessions@;
        let ghost count = found@.len() as int;
        let (session, is_directory): (ResumeSession, bool) = found.pop().unwrap();
        assert(found@ =~= all.subrange(0, count - 1));
        assert(all[count - 1] == (session, is_directory));
        if is_directory && is_transfer_id(session.transfer_id.as_str()) {
            let mut at: usize = 0;
            while at < sessions.len() && is_after(
                session.transfer_id.as_str(),
                sessions[at].transfer_id.as_str(),
            )
                invariant
                    at <= sessions@.len(),
                    sessions@ == before,
                    forall|k: int|
                        0 <= k < at ==> text_after(
                            session.transfer_id@,
                            (#[trigger] session_views(before)[k]).transfer_id,
                        ),
                ensures
                    at <= sessions@.len(),
                    sessions@ == before,
                    forall|k: int|
                        0 <= k < at ==> text_after(
                            session.transfer_id@,
                            (#[trigger] session_views(before)[k]).transfer_id,
                        ),
                    at < before.len() ==> !text_after(
                        session.transfer_id@,
                        session_views(before)[at as int].transfer_id,
                    ),
                decreases sessions@.len() - at,
            {
                at = at + 1;
            }
            sessions.insert(at, session);
            proof {
                let views = session_views(before);
                assert(session_views(sessions@) =~= views.insert(at as int, session@));
                lemma_put(views, at as int, session@);
                views.to_multiset_ensures();
                vstd::seq_lib::to_multiset_insert(views, at as int, session@);
                let earlier = sessions_among(all, count - 1);
                vstd::seq_lib::to_multiset_build(earlier, session@);
                assert(sessions_among(all, count) == earlier.push(session@));
                assert(earlier.push(session@).to_multiset().add(views.to_multiset())
                    =~= earlier.to_multiset().add(views.to_multiset().insert(session@)));
            }
        }
    }
    proof {
        assert(sessions_among(all, 0).to_multiset() =~= Multiset::empty());
        assert(total.to_multiset() =~= session_views(sessions@).to_multiset());
    }
    sessions
}

/// A session that is put in its place leaves the others in order.
proof fn lemma_put(sessions: Seq<SessionView>, at: int, session: SessionView)
    requires
        0 <= at <= sessions.len(),
        are_ordered(sessions),
        forall|k: int|
            0 <= k < at ==> text_after(
                session.transfer_id,
                (#[trigger] sessions[k]).transfer_id,
            ),
        at < sessions.len() ==> !text_after(session.transfer_id, sessions[at].transfer_id),
    ensures
        are_ordered(sessions.insert(at, session)),
{
    let after = sessions.insert(at, session);
    assert forall|i: int, j: int| 0 <= i < j < after.len() implies !text_after(
        (#[trigger] after[i]).transfer_id,
        (#[trigger] after[j]).transfer_id,
    ) by {
        if j == at {
            assert(after[i] == sessions[i]);
            lemma_after_is_total(session.transfer_id, sessions[i].transfer_id);
        } else if i == at {
            assert(after[j] == sessions[j - 1]);
            if j - 1 > at {
                lemma_after_goes_on(
                    session.transfer_id,
                    sessions[at].transfer_id,
                    sessions[j - 1].transfer_id,
                );
            }
        } else if j < at {
            assert(after[i] == sessions[i] && after[j] == sessions[j]);
        } else if i < at {
            assert(after[i] == sessions[i] && after[j] == sessions[j - 1]);
        } else {
            assert(after[i] == sessions[i - 1] && after[j] == sessions[j - 1]);
        }
    }
}

/// The directories of what a transfer left behind, below the directory of the
/// transfers.
#[derive(Debug)]
pub struct SessionDirectories {
    pub sessions: String,
    pub partial: String,
}

/// Where the state of a transfer is kept.
pub open spec fn sessions_path(transfer_id: Seq<char>) -> Seq<char> {
    ".udp-transfer/sessions/"@ + transfer_id
}

/// Where the parts of a transfer are kept.
pub open spec fn partial_path(transfer_id: Seq<char>) -> Seq<char> {
    ".udp-transfer/partial/"@ + transfer_id
}

/// Whether a path is that of a directory or of something in it.
pub open spec fn is_within(path: Seq<char>, directory: Seq<char>) -> bool {
    ||| path == directory
    ||| {
        &&& path.len() > directory.len()
        &&& path.subrange(0, directory.len() as int) == directory
        &&& path[directory.len() as int] == '/'
    }
}

/// A tree of files, given by its paths, without a directory and all that is in it.
pub open spec fn without_directory(tree: Set<Seq<char>>, directory: Seq<char>) -> Set<Seq<char>> {
    tree.filter(|path: Seq<char>| !is_within(path, directory))
}

/// A tree of files without the two directories.
pub open spec fn without_session(
    tree: Set<Seq<char>>,
    sessions: Seq<char>,
    partial: Seq<char>,
) -> Set<Seq<char>> {
    without_directory(without_directory(tree, sessions), partial)
}

/// A tree of files once what a transfer left behind is cleaned up; the same one if
/// the text names no transfer.
pub open spec fn cleaned(tree: Set<Seq<char>>, transfer_id: Seq<char>) -> Set<Seq<char>> {
    if names_transfer(transfer_id) {
        without_session(tree, sessions_path(transfer_id), partial_path(transfer_id))
    } else {
        tree
    }
}

/// Cleaning up removes the two directories of the transfer with all that is in
/// them, and nothing else.
pub proof fn law_cleanup_removes_the_session_alone(
    tree: Set<Seq<char>>,
    transfer_id: Seq<char>,
    path: Seq<char>,
)
    requires
        names_transfer(transfer_id),
    ensures
        cleaned(tree, transfer_id).contains(path) <==> tree.contains(path) && !is_within(
            path,
            sessions_path(transfer_id),
        ) && !is_within(path, partial_path(transfer_id)),
{
}

/// Cleaning up a second time changes nothing, and neither does a text that names no
/// transfer.
pub proof fn law_cleanup_twice_is_cleanup_once(tree: Set<Seq<char>>, transfer_id: Seq<char>)
    ensures
        cleaned(cleaned(tree, transfer_id), transfer_id) == cleaned(tree, transfer_id),
        !names_transfer(transfer_id) ==> cleaned(tree, transfer_id) == tree,
{
    let once = cleaned(tree, transfer_id);
    assert(cleaned(once, transfer_id) =~= once);
}

/// Cleaning up one transfer leaves what another one left behind.
pub proof fn law_cleanup_spares_other_sessions(
    tree: Set<Seq<char>>,
    transfer_id: Seq<char>,
    other: Seq<char>,
    path: Seq<char>,
)
    requires
        names_transfer(transfer_id),
        names_transfer(other),
        other != transfer_id,
        is_within(path, sessions_path(other)) || is_within(path, partial_path(other)),
    ensures
        cleaned(tree, transfer_id).contains(path) <==> tree.contains(path),
{
    reveal_strlit(".udp-transfer/sessions/");
    reveal_strlit(".udp-transfer/partial/");
    let sessions = ".udp-transfer/sessions/"@;
    let partial = ".udp-transfer/partial/"@;
    assert(sessions.len() == 23 && sessions[14] == 's');
    assert(partial.len() == 22 && partial[14] == 'p');
    let from = if is_within(path, sessions_path(other)) {
        sessions
    } else {
        partial
    };
    lemma_start_of_path(path, from, other);
    assert(path[14] == from[14]);
    if is_within(path, sessions_path(transfer_id)) {
        lemma_start_of_path(path, sessions, transfer_id);
        assert(path[14] == sessions[14]);
    }
    if is_within(path, partial_path(transfer_id)) {
        lemma_start_of_path(path, partial, transfer_id);
        assert(path[14] == partial[14]);
    }
}

/// What a path in a directory of a transfer begins with.
proof fn lemma_start_of_path(path: Seq<char>, parent: Seq<char>, transfer_id: Seq<char>)
    requires
        names_transfer(transfer_id),
        is_within(path, parent + transfer_id),
    ensures
        path.len() >= parent.len() + 32,
        path.subrange(parent.len() as int, (parent.len() + 32) as int) == transfer_id,
        forall|i: int| 0 <= i < parent.len() ==> #[trigger] path[i] == parent[i],
{
    let directory = parent + transfer_id;
    let start = path.subrange(0, directory.len() as int);
    assert(start =~= directory);
    assert forall|i: int| 0 <= i < directory.len() implies #[trigger] path[i] == directory[i] by {
        assert(start[i] == path[i]);
    }
    assert(path.subrange(parent.len() as int, (parent.len() + 32) as int) =~= transfer_id);
}

/// The directories to remove so that nothing of a transfer is left behind.
pub fn cleanup_resume_session(
    transfer_id: &str,
) -> (result: Result<SessionDirectories, ClientError>)
    ensures
        match result {
            Ok(directories) => {
                &&& names_transfer(transfer_id@)
                &&& directories.sessions@ == sessions_path(transfer_id@)
                &&& directories.partial@ == partial_path(transfer_id@)
                &&& forall|tree: Set<Seq<char>>| #[trigger]
                    without_session(tree, directories.sessions@, directories.partial@) == cleaned(
                        tree,
                        transfer_id@,
                    )
            },
            Err(error) => !names_transfer(transfer_id@) && error == (ClientError::Io {
                kind: IoKind::InvalidInput,
                message: "transfer_id 必须是 32 位十六进制字符串",
            }),
        },
{
    if !is_transfer_id(transfer_id) {
        return Err(
            ClientError::Io {
                kind: IoKind::InvalidInput,
                message: "transfer_id 必须是 32 位十六进制字符串",
            },
        );
    }
    let sessions: String = ".udp-transfer/sessions/".to_owned().concat(transfer_id);
    let partial: String = ".udp-transfer/partial/".to_owned().concat(transfer_id);
    Ok(SessionDirectories { sessions, partial })
}

} // verus!
