use vstd::prelude::*;

use crate::error::Error;

verus! {

/// OS error code a real drive reports for a failed positioning or read
/// operation; the simulated device reports the same code.
pub const EIO: i32 = 5;

/// OS error code for a write against a write-protected cartridge.
pub const EROFS: i32 = 30;

/// One recorded position on the tape: a data record or a filemark.
#[derive(Clone, Debug)]
pub enum Block {
    Data(Vec<u8>),
    Mark,
}

/// Mathematical image of one recorded position.
pub enum BlockV {
    Data(Seq<u8>),
    Mark,
}

impl View for Block {
    type V = BlockV;

    open spec fn view(&self) -> BlockV {
        match self {
            Block::Data(d) => BlockV::Data(d@),
            Block::Mark => BlockV::Mark,
        }
    }
}

/// Mathematical image of the whole device: the recorded blocks, the head
/// position (an index into the blocks; equal to their number at
/// end-of-data), and the write-protect tab.
pub struct TapeV {
    pub blocks: Seq<BlockV>,
    pub pos: int,
    pub write_protect: bool,
}

/// What a read at the current position yielded: a data record, a filemark,
/// or nothing because the head sits at end-of-data. A filemark outcome is
/// the "short read" that ends the enclosing container.
pub enum ReadOutcome {
    Data(Vec<u8>),
    Mark,
    End,
}

/// Device-independent status summary: the flag set a status query reports,
/// plus the current file and block numbers.
#[derive(Clone, Copy, Debug, PartialEq, Eq, Structural)]
pub struct Status {
    pub online: bool,
    pub write_protect: bool,
    /// Head at beginning of tape.
    pub bot: bool,
    /// Head at physical end of tape; the simulated cartridge never fills.
    pub eot: bool,
    /// Head at end of recorded data, the only valid append point.
    pub eod: bool,
    /// Number of filemarks between beginning of tape and the head.
    pub file_number: usize,
    /// Number of blocks (records and filemarks) between beginning of tape
    /// and the head.
    pub block_number: usize,
}

/// Index of the first filemark at or after `pos`, if any.
pub open spec fn mark_index_from(blocks: Seq<BlockV>, pos: int) -> Option<int>
    decreases blocks.len() - pos,
    when 0 <= pos <= blocks.len()
{
    if pos >= blocks.len() {
        None
    } else if blocks[pos] is Mark {
        Some(pos)
    } else {
        mark_index_from(blocks, pos + 1)
    }
}

/// The first filemark at or after `pos` lies between `pos` and the end
/// of the recorded data, and is a filemark.
pub proof fn lemma_mark_index_from_bounds(blocks: Seq<BlockV>, pos: int)
    requires
        0 <= pos <= blocks.len(),
    ensures
        mark_index_from(blocks, pos) matches Some(m) ==> pos <= m < blocks.len() && blocks[m]
            is Mark,
    decreases blocks.len() - pos,
{
    if pos < blocks.len() && !(blocks[pos] is Mark) {
        lemma_mark_index_from_bounds(blocks, pos + 1);
    }
}

/// Head position after spacing forward over `count` filemarks from `pos`,
/// or `None` if the recorded data ends first.
pub open spec fn fsf_target(blocks: Seq<BlockV>, pos: int, count: nat) -> Option<int>
    decreases count,
{
    if count == 0 {
        Some(pos)
    } else {
        match mark_index_from(blocks, pos) {
            Some(m) => fsf_target(blocks, m + 1, (count - 1) as nat),
            None => None,
        }
    }
}

/// Index of the last filemark strictly before `pos`, if any.
pub open spec fn mark_index_back(blocks: Seq<BlockV>, pos: int) -> Option<int>
    decreases pos,
    when 0 <= pos <= blocks.len()
{
    if pos <= 0 {
        None
    } else if blocks[pos - 1] is Mark {
        Some(pos - 1)
    } else {
        mark_index_back(blocks, pos - 1)
    }
}

/// Head position after spacing backward over `count` filemarks from `pos`:
/// the head comes to rest immediately before the last filemark crossed.
pub open spec fn bsf_target(blocks: Seq<BlockV>, pos: int, count: nat) -> Option<int>
    decreases count,
{
    if count == 0 {
        Some(pos)
    } else {
        match mark_index_back(blocks, pos) {
            Some(m) => bsf_target(blocks, m, (count - 1) as nat),
            None => None,
        }
    }
}

/// Head position after spacing forward over `count` data records from
/// `pos`: `Ok` with the new position, or `Err` with the position where a
/// filemark or end-of-data stopped the motion early.
pub open spec fn fsr_result(blocks: Seq<BlockV>, pos: int, count: nat) -> Result<int, int>
    decreases count,
{
    if count == 0 {
        Ok(pos)
    } else if pos >= blocks.len() || blocks[pos] is Mark {
        Err(pos)
    } else {
        fsr_result(blocks, pos + 1, (count - 1) as nat)
    }
}

/// Head position after spacing backward over `count` data records from
/// `pos`: `Ok` with the new position, or `Err` with the position where a
/// filemark or beginning of tape stopped the motion early.
pub open spec fn bsr_result(blocks: Seq<BlockV>, pos: int, count: nat) -> Result<int, int>
    decreases count,
{
    if count == 0 {
        Ok(pos)
    } else if pos <= 0 || blocks[pos - 1] is Mark {
        Err(pos)
    } else {
        bsr_result(blocks, pos - 1, (count - 1) as nat)
    }
}

/// Number of filemarks in `blocks`.
pub open spec fn count_marks(blocks: Seq<BlockV>) -> nat
    decreases blocks.len(),
{
    if blocks.len() == 0 {
        0
    } else {
        count_marks(blocks.drop_last()) + if blocks.last() is Mark {
            1nat
        } else {
            0nat
        }
    }
}

/// Simulated sequential tape device: block I/O and positioning over one
/// cartridge held in memory. All operations move the head exactly as the
/// corresponding device control operation would; a write destroys
/// everything recorded after the head.
pub struct TapeDevice {
    blocks: Vec<Block>,
    pos: usize,
    write_protect: bool,
}

impl View for TapeDevice {
    type V = TapeV;

    closed spec fn view(&self) -> TapeV {
        TapeV {
            blocks: self.blocks@.map_values(|b: Block| b@),
            pos: self.pos as int,
            write_protect: self.write_protect,
        }
    }
}

impl TapeDevice {
    /// The head never passes end-of-data.
    pub open spec fn wf(&self) -> bool {
        0 <= self@.pos <= self@.blocks.len()
    }

    /// A blank cartridge: nothing recorded, head at beginning of tape.
    pub fn blank() -> (d: TapeDevice)
        ensures
            d.wf(),
            d@.blocks.len() == 0,
            d@.pos == 0,
            !d@.write_protect,
    {
        let d = TapeDevice { blocks: Vec::new(), pos: 0, write_protect: false };
        proof {
            assert(d@.blocks =~= Seq::<BlockV>::empty());
        }
        d
    }

    /// Move the write-protect tab.
    pub fn set_write_protect(&mut self, on: bool)
        requires
            old(self).wf(),
        ensures
            final(self).wf(),
            final(self)@.blocks == old(self)@.blocks,
            final(self)@.pos == old(self)@.pos,
            final(self)@.write_protect == on,
    {
        self.write_protect = on;
    }

    /// Read one block at the head and advance past it.
    pub fn read_block(&mut self) -> (r: ReadOutcome)
        requires
            old(self).wf(),
        ensures
            final(self).wf(),
            final(self)@.blocks == old(self)@.blocks,
            final(self)@.write_protect == old(self)@.write_protect,
            old(self)@.pos == old(self)@.blocks.len() ==> r is End && final(self)@.pos == old(self)@.pos,
            old(self)@.pos < old(self)@.blocks.len() ==> {
                &&& final(self)@.pos == old(self)@.pos + 1
                &&& match old(self)@.blocks[old(self)@.pos] {
                    BlockV::Data(d) => r matches ReadOutcome::Data(v) && v@ == d,
                    BlockV::Mark => r is Mark,
                }
            },
    {
        if self.pos == self.blocks.len() {
            ReadOutcome::End
        } else {
            proof {
                assert(self@.blocks.len() == self.blocks@.len());
            }
            let i = self.pos;
            self.pos = self.pos + 1;
            match &self.blocks[i] {
                Block::Data(d) => ReadOutcome::Data(vstd::slice::slice_to_vec(d.as_slice())),
                Block::Mark => ReadOutcome::Mark,
            }
        }
    }

    /// Record one data block at the head. Everything after the head is
    /// destroyed; the head ends just past the new block, at end-of-data.
    pub fn write_block(&mut self, data: &[u8]) -> (r: Result<(), Error>)
        requires
            old(self).wf(),
        ensures
            final(self).wf(),
            final(self)@.write_protect == old(self)@.write_protect,
            old(self)@.write_protect ==> r == Err::<(), Error>(Error::DeviceFault(EROFS))
                && final(self)@ == old(self)@,
            !old(self)@.write_protect ==> {
                &&& r is Ok
                &&& final(self)@.blocks == old(self)@.blocks.take(old(self)@.pos) + seq![
                    BlockV::Data(data@),
                ]
                &&& final(self)@.pos == old(self)@.pos + 1
            },
    {
        if self.write_protect {
            return Err(Error::DeviceFault(EROFS));
        }
        self.blocks.truncate(self.pos);
        self.blocks.push(Block::Data(vstd::slice::slice_to_vec(data)));
        self.pos = self.blocks.len();
        proof {
            assert(self@.blocks =~= old(self)@.blocks.take(old(self)@.pos) + seq![
                BlockV::Data(data@),
            ]);
        }
        Ok(())
    }

    /// Write `count` filemarks at the head. Everything after the head is
    /// destroyed; the head ends just past the marks, at end-of-data.
    pub fn weof(&mut self, count: usize) -> (r: Result<(), Error>)
        requires
            old(self).wf(),
        ensures
            final(self).wf(),
            final(self)@.write_protect == old(self)@.write_protect,
            old(self)@.write_protect ==> r == Err::<(), Error>(Error::DeviceFault(EROFS))
                && final(self)@ == old(self)@,
            !old(self)@.write_protect ==> {
                &&& r is Ok
                &&& final(self)@.blocks == old(self)@.blocks.take(old(self)@.pos) + Seq::new(
                    count as nat,
                    |i: int| BlockV::Mark,
                )
                &&& final(self)@.pos == old(self)@.pos + count
            },
    {
        if self.write_protect {
            return Err(Error::DeviceFault(EROFS));
        }
        self.blocks.truncate(self.pos);
        proof {
            assert(self@.blocks =~= old(self)@.blocks.take(old(self)@.pos) + Seq::new(
                0nat,
                |i: int| BlockV::Mark,
            ));
        }
        let mut written: usize = 0;
        #[verifier::loop_isolation(false)]
        while written < count
            invariant
                written <= count,
                self.blocks.len() == old(self)@.pos + written,
                self.pos == old(self)@.pos,
                self.write_protect == old(self)@.write_protect,
                self@.blocks =~= old(self)@.blocks.take(old(self)@.pos) + Seq::new(
                    written as nat,
                    |i: int| BlockV::Mark,
                ),
            decreases count - written,
        {
            let ghost vpre = self.blocks@;
            let ghost wpre = written as nat;
            self.blocks.push(Block::Mark);
            written = written + 1;
            proof {
                let target = old(self)@.blocks.take(old(self)@.pos) + Seq::new(
                    written as nat,
                    |i: int| BlockV::Mark,
                );
                assert(self.blocks@ == vpre.push(Block::Mark));
                assert forall|i: int| 0 <= i < self@.blocks.len() implies self@.blocks[i]
                    == target[i] by {
                    assert(self@.blocks[i] == self.blocks@[i]@);
                    if i < vpre.len() {
                        assert(self.blocks@[i] == vpre[i]);
                        assert(vpre.map_values(|b: Block| b@)[i] == vpre[i]@);
                    } else {
                        assert(self.blocks@[i] == Block::Mark);
                    }
                }
                assert(self@.blocks =~= target);
            }
        }
        self.pos = self.blocks.len();
        Ok(())
    }

    /// Move the head back to beginning of tape.
    pub fn rewind(&mut self)
        requires
            old(self).wf(),
        ensures
            final(self).wf(),
            final(self)@.blocks == old(self)@.blocks,
            final(self)@.write_protect == old(self)@.write_protect,
            final(self)@.pos == 0,
    {
        self.pos = 0;
    }

    /// Move the head to end-of-data, for appending.
    pub fn eom(&mut self)
        requires
            old(self).wf(),
        ensures
            final(self).wf(),
            final(self)@.blocks == old(self)@.blocks,
            final(self)@.write_protect == old(self)@.write_protect,
            final(self)@.pos == old(self)@.blocks.len(),
    {
        self.pos = self.blocks.len();
    }

    /// Space forward over `count` filemarks, coming to rest at the first
    /// record after the last mark crossed. Runs to end-of-data and fails
    /// if fewer marks remain.
    pub fn fsf(&mut self, count: usize) -> (r: Result<(), Error>)
        requires
            old(self).wf(),
        ensures
            final(self).wf(),
            final(self)@.blocks == old(self)@.blocks,
            final(self)@.write_protect == old(self)@.write_protect,
            match fsf_target(old(self)@.blocks, old(self)@.pos, count as nat) {
                Some(t) => r is Ok && final(self)@.pos == t,
                None => r == Err::<(), Error>(Error::DeviceFault(EIO)) && final(self)@.pos == old(self)@.blocks.len(),
            },
    {
        let ghost blocks = self@.blocks;
        let mut remaining: usize = count;
        #[verifier::loop_isolation(false)]
        while remaining > 0
            invariant
                self.wf(),
                self@.blocks == blocks,
                self@.write_protect == old(self)@.write_protect,
                fsf_target(blocks, old(self)@.pos, count as nat) == fsf_target(
                    blocks,
                    self@.pos,
                    remaining as nat,
                ),
            decreases remaining,
        {
            // advance to the next mark, or to end-of-data
            #[verifier::loop_isolation(false)]
            while self.pos < self.blocks.len() && !matches!(&self.blocks[self.pos], Block::Mark)
                invariant
                    self.wf(),
                    self@.blocks == blocks,
                    self@.write_protect == old(self)@.write_protect,
                    fsf_target(blocks, old(self)@.pos, count as nat) == fsf_target(
                        blocks,
                        self@.pos,
                        remaining as nat,
                    ),
                    remaining > 0,
                decreases self.blocks.len() - self.pos,
            {
                proof {
                    assert(mark_index_from(blocks, self@.pos) == mark_index_from(
                        blocks,
                        self@.pos + 1,
                    ));
                }
                self.pos = self.pos + 1;
            }
            if self.pos == self.blocks.len() {
                proof {
                    assert(mark_index_from(blocks, self@.pos) is None);
                }
                return Err(Error::DeviceFault(EIO));
            }
            proof {
                assert(mark_index_from(blocks, self@.pos) == Some(self@.pos));
            }
            self.pos = self.pos + 1;
            remaining = remaining - 1;
        }
        Ok(())
    }

    /// Space backward over `count` filemarks, coming to rest immediately
    /// before the last mark crossed. Runs to beginning of tape and fails
    /// if fewer marks lie behind the head.
    pub fn bsf(&mut self, count: usize) -> (r: Result<(), Error>)
        requires
            old(self).wf(),
        ensures
            final(self).wf(),
            final(self)@.blocks == old(self)@.blocks,
            final(self)@.write_protect == old(self)@.write_protect,
            match bsf_target(old(self)@.blocks, old(self)@.pos, count as nat) {
                Some(t) => r is Ok && final(self)@.pos == t,
                None => r == Err::<(), Error>(Error::DeviceFault(EIO)) && final(self)@.pos == 0,
            },
    {
        let ghost blocks = self@.blocks;
        let mut remaining: usize = count;
        #[verifier::loop_isolation(false)]
        while remaining > 0
            invariant
                self.wf(),
                self@.blocks == blocks,
                self@.write_protect == old(self)@.write_protect,
                bsf_target(blocks, old(self)@.pos, count as nat) == bsf_target(
                    blocks,
                    self@.pos,
                    remaining as nat,
                ),
            decreases remaining,
        {
            #[verifier::loop_isolation(false)]
            while self.pos > 0 && !matches!(&self.blocks[self.pos - 1], Block::Mark)
                invariant
                    self.wf(),
                    self@.blocks == blocks,
                    self@.write_protect == old(self)@.write_protect,
                    bsf_target(blocks, old(self)@.pos, count as nat) == bsf_target(
                        blocks,
                        self@.pos,
                        remaining as nat,
                    ),
                    remaining > 0,
                decreases self.pos,
            {
                proof {
                    assert(mark_index_back(blocks, self@.pos) == mark_index_back(
                        blocks,
                        self@.pos - 1,
                    ));
                }
                self.pos = self.pos - 1;
            }
            if self.pos == 0 {
                proof {
                    assert(mark_index_back(blocks, self@.pos) is None);
                }
                return Err(Error::DeviceFault(EIO));
            }
            proof {
                assert(mark_index_back(blocks, self@.pos) == Some(self@.pos - 1));
            }
            self.pos = self.pos - 1;
            remaining = remaining - 1;
        }
        Ok(())
    }

    /// Space forward over `count` data records. A filemark or end-of-data
    /// reached early stops the head there and fails the call.
    pub fn fsr(&mut self, count: usize) -> (r: Result<(), Error>)
        requires
            old(self).wf(),
        ensures
            final(self).wf(),
            final(self)@.blocks == old(self)@.blocks,
            final(self)@.write_protect == old(self)@.write_protect,
            match fsr_result(old(self)@.blocks, old(self)@.pos, count as nat) {
                Ok(t) => r is Ok && final(self)@.pos == t,
                Err(s) => r == Err::<(), Error>(Error::DeviceFault(EIO)) && final(self)@.pos == s,
            },
    {
        let ghost blocks = self@.blocks;
        let mut remaining: usize = count;
        #[verifier::loop_isolation(false)]
        while remaining > 0
            invariant
                self.wf(),
                self@.blocks == blocks,
                self@.write_protect == old(self)@.write_protect,
                fsr_result(blocks, old(self)@.pos, count as nat) == fsr_result(
                    blocks,
                    self@.pos,
                    remaining as nat,
                ),
            decreases remaining,
        {
            if self.pos == self.blocks.len() {
                return Err(Error::DeviceFault(EIO));
            }
            if matches!(&self.blocks[self.pos], Block::Mark) {
                return Err(Error::DeviceFault(EIO));
            }
            self.pos = self.pos + 1;
            remaining = remaining - 1;
        }
        Ok(())
    }

    /// Space backward over `count` data records. A filemark or beginning
    /// of tape reached early stops the head there and fails the call.
    pub fn bsr(&mut self, count: usize) -> (r: Result<(), Error>)
        requires
            old(self).wf(),
        ensures
            final(self).wf(),
            final(self)@.blocks == old(self)@.blocks,
            final(self)@.write_protect == old(self)@.write_protect,
            match bsr_result(old(self)@.blocks, old(self)@.pos, count as nat) {
                Ok(t) => r is Ok && final(self)@.pos == t,
                Err(s) => r == Err::<(), Error>(Error::DeviceFault(EIO)) && final(self)@.pos == s,
            },
    {
        let ghost blocks = self@.blocks;
        let mut remaining: usize = count;
        #[verifier::loop_isolation(false)]
        while remaining > 0
            invariant
                self.wf(),
                self@.blocks == blocks,
                self@.write_protect == old(self)@.write_protect,
                bsr_result(blocks, old(self)@.pos, count as nat) == bsr_result(
                    blocks,
                    self@.pos,
                    remaining as nat,
                ),
            decreases remaining,
        {
            if self.pos == 0 {
                return Err(Error::DeviceFault(EIO));
            }
            if matches!(&self.blocks[self.pos - 1], Block::Mark) {
                return Err(Error::DeviceFault(EIO));
            }
            self.pos = self.pos - 1;
            remaining = remaining - 1;
        }
        Ok(())
    }

    /// Current head position, counted in blocks from beginning of tape.
    pub fn tell(&self) -> (r: usize)
        requires
            self.wf(),
        ensures
            r == self@.pos,
    {
        self.pos
    }

    /// Move the head to an absolute block position. Fails past end-of-data.
    pub fn seek(&mut self, block: usize) -> (r: Result<(), Error>)
        requires
            old(self).wf(),
        ensures
            final(self).wf(),
            final(self)@.blocks == old(self)@.blocks,
            final(self)@.write_protect == old(self)@.write_protect,
            block <= old(self)@.blocks.len() ==> r is Ok && final(self)@.pos == block,
            block > old(self)@.blocks.len() ==> r == Err::<(), Error>(Error::DeviceFault(EIO))
                && final(self)@.pos == old(self)@.pos,
    {
        if block > self.blocks.len() {
            return Err(Error::DeviceFault(EIO));
        }
        self.pos = block;
        Ok(())
    }

    /// Query the device-independent status flags and the head position.
    pub fn get_status(&self) -> (s: Status)
        requires
            self.wf(),
        ensures
            s.online,
            s.write_protect == self@.write_protect,
            s.bot == (self@.pos == 0),
            !s.eot,
            s.eod == (self@.pos == self@.blocks.len()),
            s.file_number == count_marks(self@.blocks.take(self@.pos)),
            s.block_number == self@.pos,
    {
        let mut marks: usize = 0;
        let mut i: usize = 0;
        #[verifier::loop_isolation(false)]
        while i < self.pos
            invariant
                self.wf(),
                i <= self@.pos,
                marks <= i,
                marks == count_marks(self@.blocks.take(i as int)),
            decreases self.pos - i,
        {
            if matches!(&self.blocks[i], Block::Mark) {
                marks = marks + 1;
            }
            i = i + 1;
            proof {
                assert(self@.blocks.take(i as int).drop_last() =~= self@.blocks.take(i - 1));
                assert(self@.blocks.take(i as int).last() == self@.blocks[i - 1]);
            }
        }
        Status {
            online: true,
            write_protect: self.write_protect,
            bot: self.pos == 0,
            eot: false,
            eod: self.pos == self.blocks.len(),
            file_number: marks,
            block_number: self.pos,
        }
    }

    /// Erase the cartridge: nothing remains recorded, head at beginning of
    /// tape. A secure erase overwrites the medium and cannot be aborted
    /// once started; both kinds leave the same recorded state.
    pub fn erase(&mut self, secure: bool) -> (r: Result<(), Error>)
        requires
            old(self).wf(),
        ensures
            final(self).wf(),
            final(self)@.write_protect == old(self)@.write_protect,
            old(self)@.write_protect ==> r == Err::<(), Error>(Error::DeviceFault(EROFS))
                && final(self)@ == old(self)@,
            !old(self)@.write_protect ==> r is Ok && final(self)@.blocks.len() == 0
                && final(self)@.pos == 0,
    {
        if self.write_protect {
            return Err(Error::DeviceFault(EROFS));
        }
        let _ = secure;
        self.blocks.clear();
        self.pos = 0;
        proof {
            assert(self@.blocks =~= Seq::<BlockV>::empty());
        }
        Ok(())
    }
}

} // verus!
