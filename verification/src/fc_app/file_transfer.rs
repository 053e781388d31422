//! Transfer of a file.

use vstd::prelude::*;

verus! {

/// How much of a file is read at once.
pub const READ_LEN: usize = 2000;

/// Messages of the sending side.
#[derive(Debug)]
pub enum FileTransferSrcMsg {
    /// Data, and whether it is the last piece of data.
    Data((Vec<u8>, bool)),
    /// No more data will be sent.
    Close,
}

/// Sending side of a file transfer.
#[derive(Clone, Copy, Debug, PartialEq, Eq, Structural)]
pub struct FileTransferSrc {
    /// Length of the file at the time it is opened.
    pub len: u64,
    /// Total number of bytes sent so far.
    pub nb_bytes_sent: u64,
}

impl FileTransferSrc {
    /// A transfer of a file of `len` bytes of which nothing was sent.
    pub fn new(len: u64) -> (s: FileTransferSrc)
        ensures
            s == (FileTransferSrc { len, nb_bytes_sent: 0 }),
    {
        FileTransferSrc { len, nb_bytes_sent: 0 }
    }

    /// Handles a read of the file that gave `nb_read` bytes at the start of the
    /// buffer. Returns the message to send: these bytes, with the mark of the last
    /// piece once as many bytes were read as the file had, and the end of the transfer
    /// where nothing was read.
    pub fn on_read(&mut self, buffer: Vec<u8>, nb_read: usize) -> (m: FileTransferSrcMsg)
        requires
            nb_read <= buffer@.len(),
            old(self).nb_bytes_sent + nb_read <= u64::MAX,
        ensures
            final(self).len == old(self).len,
            final(self).nb_bytes_sent == old(self).nb_bytes_sent + nb_read,
            nb_read == 0 ==> m is Close,
            nb_read > 0 ==> m is Data && (m->Data_0).0@ == buffer@.take(nb_read as int) && (
            m->Data_0).1 == (old(self).nb_bytes_sent + nb_read == old(self).len),
    {
        if nb_read == 0 {
            return self.on_finish();
        }
        self.nb_bytes_sent += nb_read as u64;
        let fin: bool = self.nb_bytes_sent == self.len;
        let mut data: Vec<u8> = buffer;
        data.truncate(nb_read);
        assert(data@ =~= buffer@.take(nb_read as int));
        FileTransferSrcMsg::Data((data, fin))
    }

    /// The message that ends the transfer.
    pub fn on_finish(&self) -> (m: FileTransferSrcMsg)
        ensures
            m is Close,
    {
        FileTransferSrcMsg::Close
    }
}

/// Messages of the receiving side.
#[derive(Debug)]
pub enum FileTransferRecvMsg {
    /// Data.
    Data(Vec<u8>),
    /// No more data will be received.
    Close,
}

/// What the receiving side does about a message.
#[derive(Debug)]
pub enum RecvAction {
    /// Append the bytes to the file.
    Write(Vec<u8>),
    /// Ignore the bytes: there is no file.
    Skip,
    /// Close the channel and stop.
    Close,
    /// Stop.
    Stop,
}

/// Receiving side of a file transfer.
#[derive(Clone, Copy, Debug, PartialEq, Eq, Structural)]
pub struct FileTransferRecv {
    /// Whether there is a file to write.
    pub has_file: bool,
    /// Total number of bytes received so far.
    pub nb_bytes_recv: usize,
}

impl FileTransferRecv {
    /// A transfer of which nothing was received.
    pub fn new() -> (r: FileTransferRecv)
        ensures
            r == (FileTransferRecv { has_file: true, nb_bytes_recv: 0 }),
    {
        FileTransferRecv { has_file: true, nb_bytes_recv: 0 }
    }

    /// What to do about the next message of the channel, or its end.
    pub fn on_message(&self, msg: Option<FileTransferRecvMsg>) -> (a: RecvAction)
        ensures
            match msg {
                Some(FileTransferRecvMsg::Data(v)) => if self.has_file {
                    a is Write && a->Write_0@ == v@
                } else {
                    a is Skip
                },
                Some(FileTransferRecvMsg::Close) => a is Close,
                None => a is Stop,
            },
    {
        match msg {
            Some(FileTransferRecvMsg::Data(v)) => {
                if self.has_file {
                    RecvAction::Write(v)
                } else {
                    RecvAction::Skip
                }
            },
            Some(FileTransferRecvMsg::Close) => RecvAction::Close,
            None => RecvAction::Stop,
        }
    }

    /// Handles data of the channel, given whether it could be written to the file.
    /// Only what was written is counted. Returns whether the transfer goes on: it
    /// fails with the write.
    pub fn handle_new_data(&mut self, v: &Vec<u8>, written: bool) -> (r: bool)
        requires
            old(self).nb_bytes_recv + v@.len() <= usize::MAX,
        ensures
            r == (!old(self).has_file || written),
            final(self).has_file == old(self).has_file,
            final(self).nb_bytes_recv == old(self).nb_bytes_recv + if old(self).has_file
                && written {
                v@.len() as int
            } else {
                0
            },
    {
        if self.has_file {
            if !written {
                return false;
            }
            self.nb_bytes_recv += v.len();
        }
        true
    }
}

/// Sum of the lengths of some reads.
pub open spec fn total(reads: Seq<usize>) -> nat
    decreases reads.len(),
{
    if reads.len() == 0 {
        0
    } else {
        total(reads.drop_last()) + reads.last() as nat
    }
}

/// Whether the read after some others is marked as the last one.
pub open spec fn is_marked(len: u64, reads: Seq<usize>, n: usize) -> bool {
    n > 0 && total(reads.push(n)) == len
}

/// At most one piece is marked as the last one, since bytes are only added.
pub proof fn one_piece_is_the_last(len: u64, reads: Seq<usize>, i: int, j: int)
    requires
        0 <= i < j < reads.len(),
        is_marked(len, reads.take(i), reads[i]),
    ensures
        !is_marked(len, reads.take(j), reads[j]),
{
    assert(reads.take(i).push(reads[i]) =~= reads.take(i + 1));
    assert(reads.take(j).push(reads[j]) =~= reads.take(j + 1));
    lemma_total_grows(reads, i + 1, j);
    assert(reads.take(j + 1).drop_last() =~= reads.take(j));
}

/// The last piece is marked, and no other one: once all of a file was read, in pieces
/// that are not empty, exactly the last of them bears the mark.
pub proof fn last_piece_is_marked(len: u64, reads: Seq<usize>, i: int)
    requires
        0 <= i < reads.len(),
        forall|k: int| 0 <= k < reads.len() ==> (#[trigger] reads[k]) > 0,
        total(reads) == len,
    ensures
        is_marked(len, reads.take(i), reads[i]) <==> i == reads.len() - 1,
{
    let last = reads.len() - 1;
    assert(reads.take(last).push(reads[last]) =~= reads);
    if i < last && is_marked(len, reads.take(i), reads[i]) {
        one_piece_is_the_last(len, reads, i, last);
    }
}

proof fn lemma_total_grows(reads: Seq<usize>, i: int, j: int)
    requires
        0 <= i <= j <= reads.len(),
    ensures
        total(reads.take(i)) <= total(reads.take(j)),
    decreases j - i,
{
    if i < j {
        lemma_total_grows(reads, i, j - 1);
        assert(reads.take(j).drop_last() =~= reads.take(j - 1));
    }
}

/// A read of a file becomes a message with exactly the bytes that were read. It bears the mark of
/// the last one when all the bytes of the file are sent with it. An empty read ends the
/// transfer.
pub proof fn reads_become_messages(
    s: &mut FileTransferSrc,
    buffer: Vec<u8>,
    n: usize,
    m: FileTransferSrcMsg,
    i: int,
)
    requires
        call_ensures(FileTransferSrc::on_read, (s, buffer, n), m),
        n <= buffer@.len(),
    ensures
        m is Close <==> n == 0,
        n > 0 ==> {
            let data = (m->Data_0).0@;
            &&& data.len() == n
            &&& 0 <= i < n ==> data[i] == buffer@[i]
            &&& (m->Data_0).1 <==> final(s).nb_bytes_sent == final(s).len
        },
        final(s).nb_bytes_sent == old(s).nb_bytes_sent + n,
        final(s).len == old(s).len,
{
}

/// Data of the channel goes to the file where there is one, and is skipped else; the end of the
/// transfer and that of the channel end it.
pub proof fn received_data_goes_to_the_file(
    r: FileTransferRecv,
    msg: Option<FileTransferRecvMsg>,
    a: RecvAction,
)
    requires
        call_ensures(FileTransferRecv::on_message, (&r, msg), a),
    ensures
        msg is None <==> a is Stop,
        (msg is Some && msg->0 is Close) <==> a is Close,
        (msg is Some && msg->0 is Data && !r.has_file) <==> a is Skip,
        (msg is Some && msg->0 is Data && r.has_file) <==> a is Write,
        a is Write ==> a->Write_0@ == (msg->0)->Data_0@,
{
}

/// Only bytes that were written are counted, and a write that failed ends the transfer.
pub proof fn written_bytes_are_counted(r: &mut FileTransferRecv, v: Vec<u8>, written: bool, go: bool)
    requires
        call_ensures(FileTransferRecv::handle_new_data, (r, &v, written), go),
    ensures
        old(r).has_file && !written ==> !go && final(r).nb_bytes_recv == old(r).nb_bytes_recv,
        old(r).has_file && written ==> go && final(r).nb_bytes_recv == old(r).nb_bytes_recv
            + v@.len(),
        !old(r).has_file ==> go && final(r).nb_bytes_recv == old(r).nb_bytes_recv,
        final(r).has_file == old(r).has_file,
{
}

} // verus!
