# mem_backend

Guest memory snapshots that an external *memory backend* process takes of a microVM, written and
verified in Verus.

- `src/` is the library. Its functions carry contracts that Verus proves. The modules whose names
  end in `_laws` state and prove what holds of the library as a whole: that no dirty page is lost
  when an exchange with the backend fails, that dirty tracking is reset only for what was delivered,
  that every complete request is served and answered once, that messages come out of the stream as
  they went in, and that a layout's bitmap, its page count and its text form agree.
- `app/` is ordinary Rust around it: the sockets, the JSON form of the messages and of the
  configuration, and the loop that does what the library asks for.
- `tests/` runs the library.

The library decides and does no I/O. `vmm::Vmm` returns an action for each step: effects on dirty
tracking, and then a question, such as a read from the socket, whose answer is handed back to it.
