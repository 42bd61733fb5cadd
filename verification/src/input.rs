use vstd::prelude::*;

verus! {

/// The receiving side of a serial line: a first-in first-out queue of the
/// bytes that arrived and have not been read yet. The owner of the line
/// hands each arriving byte to `receive`.
pub struct InputReceiver {
    serial_rx: Vec<u8>,
}

impl View for InputReceiver {
    type V = Seq<u8>;

    /// The bytes received and not yet read, oldest first.
    closed spec fn view(&self) -> Seq<u8> {
        self.serial_rx@
    }
}

impl InputReceiver {
    /// A receiver with nothing received yet.
    pub fn new() -> (r: InputReceiver)
        ensures
            r@ == Seq::<u8>::empty(),
    {
        InputReceiver { serial_rx: Vec::new() }
    }

    /// Record a byte that arrived on the line.
    pub fn receive(&mut self, byte: u8)
        ensures
            final(self)@ == old(self)@.push(byte),
    {
        self.serial_rx.push(byte);
    }

    /// Whether some byte has arrived and not been read yet.
    pub fn has_input(&self) -> (r: bool)
        ensures
            r == (self@.len() > 0),
    {
        self.serial_rx.len() > 0
    }

    /// Read the oldest byte not yet read, if there is one.
    fn read(&mut self) -> (result: Option<u8>)
        ensures
            old(self)@.len() == 0 ==> result is None && final(self)@ == old(self)@,
            old(self)@.len() > 0 ==> result == Some(old(self)@[0]) && final(self)@ == old(
                self,
            )@.drop_first(),
    {
        if self.serial_rx.len() == 0 {
            None
        } else {
            let b = self.serial_rx.remove(0);
            Some(b)
        }
    }

    /// Wait until input is available, then return the byte received. The
    /// caller waits for a byte to arrive before calling.
    pub fn wait_for_input(&mut self) -> (byte: u8)
        requires
            old(self)@.len() > 0,
        ensures
            byte == old(self)@[0],
            final(self)@ == old(self)@.drop_first(),
    {
        loop
            invariant
                self@ == old(self)@,
                old(self)@.len() > 0,
            decreases 1int,
        {
            match self.read() {
                Some(word) => return word,
                None => {},
            }
        }
    }

    /// Discard every byte received and not yet read. Returns the last (most
    /// recent) of them, if any.
    pub fn clear_buffer(&mut self) -> (last: Option<u8>)
        ensures
            final(self)@ == Seq::<u8>::empty(),
            last == (if old(self)@.len() == 0 {
                None
            } else {
                Some(old(self)@.last())
            }),
    {
        let mut opt: Option<u8> = None;
        loop
            invariant
                old(self)@ =~= old(self)@.take(old(self)@.len() - self@.len()) + self@,
                opt == (if old(self)@.len() == self@.len() {
                    None
                } else {
                    Some(old(self)@[old(self)@.len() - self@.len() - 1])
                }),
                self@.len() <= old(self)@.len(),
            ensures
                self@.len() == 0,
                opt == (if old(self)@.len() == 0 {
                    None
                } else {
                    Some(old(self)@.last())
                }),
            decreases self@.len(),
        {
            let result = self.read();
            if result.is_some() {
                opt = result;
                assert(old(self)@ =~= old(self)@.take(old(self)@.len() - self@.len()) + self@);
            } else {
                break;
            }
        }
        opt
    }

    /// Return the oldest byte not yet read, or 0 when none has arrived.
    pub fn get_input(&mut self) -> (byte: u8)
        ensures
            old(self)@.len() == 0 ==> byte == 0 && final(self)@ == old(self)@,
            old(self)@.len() > 0 ==> byte == old(self)@[0] && final(self)@ == old(self)@.drop_first(),
    {
        match self.read() {
            Some(word) => word,
            None => 0,
        }
    }
}

} // verus!
