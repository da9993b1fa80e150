//! What is shown of the reports, directory by directory, as they come.

use crate::path::EntryPath;
use crate::process::Output;
use vstd::prelude::*;
use vstd::slice::slice_to_vec;

verus! {

/// Where to write.
#[derive(Debug, Clone, Copy, PartialEq, Eq, Structural)]
pub enum Channel {
    Stdout,
    Stderr,
}

/// Something to write.
#[derive(Debug)]
pub struct Write {
    pub channel: Channel,
    pub bytes: Vec<u8>,
}

/// What a `Write` holds.
pub struct WriteView {
    pub channel: Channel,
    pub bytes: Seq<u8>,
}

impl View for Write {
    type V = WriteView;

    open spec fn view(&self) -> WriteView {
        WriteView { channel: self.channel, bytes: self.bytes@ }
    }
}

/// What a list of writes holds.
pub open spec fn write_views(writes: Seq<Write>) -> Seq<WriteView> {
    Seq::new(writes.len(), |i: int| writes[i]@)
}

/// What there is to show of one directory: what the command wrote there, or
/// the text that says why there is none of it.
pub type Shown = Result<(EntryPath, Output), String>;

/// What a `Shown` holds.
pub type ShownView = Result<(Seq<u8>, crate::process::OutputView), Seq<char>>;

/// What a `Shown` holds.
pub open spec fn shown_view(shown: Shown) -> ShownView {
    match shown {
        Ok((entry, output)) => Ok((entry@, output@)),
        Err(text) => Err(text@),
    }
}

/// The text `text` on `channel`.
pub open spec fn text_write(channel: Channel, text: Seq<char>) -> WriteView {
    WriteView { channel, bytes: vstd::utf8::encode_utf8(text) }
}

/// What is written for one directory: its path and what the command wrote,
/// with a warning ahead of what it wrote to the error output, if anything; or
/// the text of the error.
pub open spec fn body(shown: ShownView) -> Seq<WriteView> {
    match shown {
        Ok((entry, output)) => {
            let head = seq![
                text_write(Channel::Stdout, crate::text::utf8_lossy(entry) + ":\n"@),
                WriteView { channel: Channel::Stdout, bytes: output.stdout },
            ];
            if output.stderr.len() == 0 {
                head
            } else {
                head + seq![
                    text_write(Channel::Stderr, "\nWarning:\n"@),
                    WriteView { channel: Channel::Stderr, bytes: output.stderr },
                ]
            }
        },
        Err(text) => seq![text_write(Channel::Stderr, text + "\n"@)],
    }
}

/// What is written for one directory, with an empty line ahead unless it is the
/// first.
pub open spec fn page(shown: ShownView, first: bool) -> Seq<WriteView> {
    if first {
        body(shown)
    } else {
        seq![text_write(Channel::Stdout, "\n"@)] + body(shown)
    }
}

/// What is written for a list of directories, one after the other.
pub open spec fn pages(all: Seq<ShownView>) -> Seq<WriteView>
    decreases all.len(),
{
    if all.len() == 0 {
        Seq::empty()
    } else {
        pages(all.drop_last()) + page(all.last(), all.len() == 1)
    }
}

/// Adds the text `text` on `channel`.
fn write_text(writes: &mut Vec<Write>, channel: Channel, text: &str)
    ensures
        write_views(final(writes)@) == write_views(old(writes)@).push(text_write(channel, text@)),
{
    let bytes: Vec<u8> = slice_to_vec(text.as_bytes());
    write_bytes(writes, channel, bytes);
}

/// Adds `bytes` on `channel`.
fn write_bytes(writes: &mut Vec<Write>, channel: Channel, bytes: Vec<u8>)
    ensures
        write_views(final(writes)@) == write_views(old(writes)@).push(
            (WriteView { channel, bytes: bytes@ }),
        ),
{
    let ghost before = write_views(writes@);
    let ghost content = bytes@;
    writes.push(Write { channel, bytes });
    assert(write_views(writes@) == before.push(WriteView { channel, bytes: content }));
}

/// Turns reports into what is written for them.
#[derive(Debug)]
pub struct Printer {
    pub first: bool,
}

impl Printer {
    /// One that has written nothing.
    pub fn new() -> (printer: Printer)
        ensures
            printer.first,
    {
        Printer { first: true }
    }

    /// What to write for one more directory, in order.
    pub fn print(&mut self, shown: Shown) -> (writes: Vec<Write>)
        ensures
            write_views(writes@) == page(shown_view(shown), old(self).first),
            shown matches Ok((entry, output)) ==> {
                &&& sent(write_views(writes@), Channel::Stdout) == (if old(self).first {
                    Seq::<u8>::empty()
                } else {
                    vstd::utf8::encode_utf8("\n"@)
                }) + vstd::utf8::encode_utf8(crate::text::utf8_lossy(entry@) + ":\n"@)
                    + output.stdout@
                &&& sent(write_views(writes@), Channel::Stderr) == if output.stderr@.len() == 0 {
                    Seq::<u8>::empty()
                } else {
                    vstd::utf8::encode_utf8("\nWarning:\n"@) + output.stderr@
                }
                &&& vstd::utf8::valid_utf8(entry@) ==> crate::text::utf8_lossy(entry@)
                    == vstd::utf8::decode_utf8(entry@)
            },
            shown matches Err(text) ==> sent(write_views(writes@), Channel::Stderr)
                == vstd::utf8::encode_utf8(text@ + "\n"@),
            !final(self).first,
    {
        let mut writes: Vec<Write> = Vec::new();
        assert(write_views(writes@) == Seq::<WriteView>::empty());
        if !self.first {
            write_text(&mut writes, Channel::Stdout, "\n");
        }
        let ghost ahead = write_views(writes@);
        self.first = false;
        match shown {
            Err(text) => {
                let mut line: String = text;
                line.append("\n");
                write_text(&mut writes, Channel::Stderr, &line);
            },
            Ok((entry, output)) => {
                let mut line: String = entry.display();
                line.append(":\n");
                let quiet: bool = output.stderr.len() == 0;
                write_text(&mut writes, Channel::Stdout, &line);
                write_bytes(&mut writes, Channel::Stdout, output.stdout);
                if !quiet {
                    write_text(&mut writes, Channel::Stderr, "\nWarning:\n");
                    write_bytes(&mut writes, Channel::Stderr, output.stderr);
                }
            },
        }
        assert(write_views(writes@) == ahead + body(shown_view(shown)));
        proof {
            match shown_view(shown) {
                Ok((entry, output)) => outputs_are_shown(entry, output, old(self).first),
                Err(text) => errors_are_shown(text, old(self).first),
            }
        }
        writes
    }
}

/// The bytes that go to `channel`, in order.
pub open spec fn sent(writes: Seq<WriteView>, channel: Channel) -> Seq<u8>
    decreases writes.len(),
{
    if writes.len() == 0 {
        Seq::empty()
    } else if writes.last().channel == channel {
        sent(writes.drop_last(), channel) + writes.last().bytes
    } else {
        sent(writes.drop_last(), channel)
    }
}

/// What goes to a channel over two lists of writes is what goes to it over the
/// first and then over the second.
proof fn sent_over_both(left: Seq<WriteView>, right: Seq<WriteView>, channel: Channel)
    ensures
        sent(left + right, channel) == sent(left, channel) + sent(right, channel),
    decreases right.len(),
{
    if right.len() == 0 {
        assert(left + right == left);
        assert(sent(left, channel) + Seq::<u8>::empty() == sent(left, channel));
    } else {
        sent_over_both(left, right.drop_last(), channel);
        assert((left + right).drop_last() == left + right.drop_last());
        assert((left + right).last() == right.last());
        assert(sent(left + right, channel) == sent(left, channel) + sent(right, channel));
    }
}

/// What goes to `channel` for each directory, one after the other, with `apart`
/// in between.
pub open spec fn sent_apart(all: Seq<ShownView>, channel: Channel, apart: Seq<u8>) -> Seq<u8>
    decreases all.len(),
{
    if all.len() == 0 {
        Seq::empty()
    } else if all.len() == 1 {
        sent(body(all[0]), channel)
    } else {
        sent_apart(all.drop_last(), channel, apart) + apart + sent(body(all.last()), channel)
    }
}

/// Over any list of directories, the standard output is what each one has for
/// it with one empty line in between, and the error output is what each one has
/// for that with nothing in between.
pub proof fn pages_are_apart(all: Seq<ShownView>)
    ensures
        sent(pages(all), Channel::Stdout) == sent_apart(
            all,
            Channel::Stdout,
            vstd::utf8::encode_utf8("\n"@),
        ),
        sent(pages(all), Channel::Stderr) == sent_apart(all, Channel::Stderr, Seq::empty()),
    decreases all.len(),
{
    if all.len() > 0 {
        let last = all.last();
        let line = seq![text_write(Channel::Stdout, "\n"@)];
        pages_are_apart(all.drop_last());
        sent_over_both(pages(all.drop_last()), page(last, all.len() == 1), Channel::Stdout);
        sent_over_both(pages(all.drop_last()), page(last, all.len() == 1), Channel::Stderr);
        sent_over_both(line, body(last), Channel::Stdout);
        sent_over_both(line, body(last), Channel::Stderr);
        reveal_with_fuel(sent, 2);
        assert(line.drop_last() == Seq::<WriteView>::empty());
        assert(sent(line, Channel::Stdout) == vstd::utf8::encode_utf8("\n"@));
        assert(sent(line, Channel::Stderr) == Seq::<u8>::empty());
        if all.len() == 1 {
            assert(all.drop_last() == Seq::<ShownView>::empty());
            assert(sent(pages(all), Channel::Stdout) == sent(body(last), Channel::Stdout));
            assert(sent(pages(all), Channel::Stderr) == sent(body(last), Channel::Stderr));
        } else {
            let out = sent_apart(
                all.drop_last(),
                Channel::Stdout,
                vstd::utf8::encode_utf8("\n"@),
            );
            assert(out + (vstd::utf8::encode_utf8("\n"@) + sent(body(last), Channel::Stdout)) == out
                + vstd::utf8::encode_utf8("\n"@) + sent(body(last), Channel::Stdout));
            let err = sent_apart(all.drop_last(), Channel::Stderr, Seq::empty());
            assert(err + (Seq::<u8>::empty() + sent(body(last), Channel::Stderr)) == err
                + Seq::<u8>::empty() + sent(body(last), Channel::Stderr));
        }
    }
}

/// A command that wrote nothing to the error output puts nothing there, and one
/// that failed to run puts nothing but the line ahead on the standard output.
pub proof fn quiet_commands_stay_quiet(shown: ShownView, first: bool)
    ensures
        shown matches Ok((_, output)) ==> (output.stderr.len() == 0 ==> sent(
            page(shown, first),
            Channel::Stderr,
        ) == Seq::<u8>::empty()),
        shown is Err && first ==> sent(page(shown, first), Channel::Stdout) == Seq::<u8>::empty(),
        shown is Err && !first ==> sent(page(shown, first), Channel::Stdout)
            == vstd::utf8::encode_utf8("\n"@),
{
    let writes = page(shown, first);
    assert(writes.len() <= 5);
    reveal_with_fuel(sent, 6);
    if shown is Err && !first {
        assert(writes.drop_last() == seq![text_write(Channel::Stdout, "\n"@)]);
        assert(Seq::<u8>::empty() + vstd::utf8::encode_utf8("\n"@) == vstd::utf8::encode_utf8(
            "\n"@,
        ));
    }
}

/// What goes to the channels over a few writes, one after the other.
proof fn sent_one_by_one(writes: Seq<WriteView>, next: WriteView)
    ensures
        sent(writes.push(next), next.channel) == sent(writes, next.channel) + next.bytes,
        forall|channel: Channel|
            channel != next.channel ==> #[trigger] sent(writes.push(next), channel) == sent(
                writes,
                channel,
            ),
        forall|channel: Channel| #[trigger] sent(Seq::empty(), channel) == Seq::<u8>::empty(),
{
    assert(writes.push(next).drop_last() == writes);
}

/// All that a command wrote is shown, whatever its exit code. The standard output
/// gets the path of the directory on a line with a colon, and then all that the
/// command wrote there, behind an empty line unless it is the first directory. The
/// error output gets nothing where the command wrote nothing there, and otherwise
/// a warning and then all of it.
pub proof fn outputs_are_shown(entry: Seq<u8>, output: crate::process::OutputView, first: bool)
    ensures
        sent(page(Ok((entry, output)), first), Channel::Stdout) == (if first {
            Seq::<u8>::empty()
        } else {
            vstd::utf8::encode_utf8("\n"@)
        }) + vstd::utf8::encode_utf8(crate::text::utf8_lossy(entry) + ":\n"@) + output.stdout,
        sent(page(Ok((entry, output)), first), Channel::Stderr) == if output.stderr.len() == 0 {
            Seq::<u8>::empty()
        } else {
            vstd::utf8::encode_utf8("\nWarning:\n"@) + output.stderr
        },
        sent(body(Ok((entry, output))), Channel::Stdout) == vstd::utf8::encode_utf8(
            crate::text::utf8_lossy(entry) + ":\n"@,
        ) + output.stdout,
        sent(body(Ok((entry, output))), Channel::Stderr) == if output.stderr.len() == 0 {
            Seq::<u8>::empty()
        } else {
            vstd::utf8::encode_utf8("\nWarning:\n"@) + output.stderr
        },
{
    let none = Seq::<WriteView>::empty();
    let line = text_write(Channel::Stdout, "\n"@);
    let name = text_write(Channel::Stdout, crate::text::utf8_lossy(entry) + ":\n"@);
    let wrote = WriteView { channel: Channel::Stdout, bytes: output.stdout };
    let warning = text_write(Channel::Stderr, "\nWarning:\n"@);
    let warned = WriteView { channel: Channel::Stderr, bytes: output.stderr };
    let head = none.push(name).push(wrote);
    let whole = if output.stderr.len() == 0 {
        head
    } else {
        head.push(warning).push(warned)
    };
    assert(body(Ok((entry, output))) == whole);
    sent_one_by_one(none, name);
    sent_one_by_one(none.push(name), wrote);
    sent_one_by_one(head, warning);
    sent_one_by_one(head.push(warning), warned);
    assert(sent(whole, Channel::Stdout) == name.bytes + output.stdout);
    assert(sent(whole, Channel::Stderr) == if output.stderr.len() == 0 {
        Seq::<u8>::empty()
    } else {
        warning.bytes + output.stderr
    });
    if !first {
        assert(page(Ok((entry, output)), first) == none.push(line) + whole);
        sent_one_by_one(none, line);
        sent_over_both(none.push(line), whole, Channel::Stdout);
        sent_over_both(none.push(line), whole, Channel::Stderr);
        assert(line.bytes + (name.bytes + output.stdout) == line.bytes + name.bytes
            + output.stdout);
    }
}

/// The text of an error is shown on a line of the error output, and the standard
/// output gets nothing of it.
pub proof fn errors_are_shown(text: Seq<char>, first: bool)
    ensures
        sent(page(Err(text), first), Channel::Stderr) == vstd::utf8::encode_utf8(text + "\n"@),
        sent(page(Err(text), first), Channel::Stdout) == if first {
            Seq::<u8>::empty()
        } else {
            vstd::utf8::encode_utf8("\n"@)
        },
        sent(body(Err(text)), Channel::Stderr) == vstd::utf8::encode_utf8(text + "\n"@),
        sent(body(Err(text)), Channel::Stdout) == Seq::<u8>::empty(),
{
    let none = Seq::<WriteView>::empty();
    let line = text_write(Channel::Stdout, "\n"@);
    let said = text_write(Channel::Stderr, text + "\n"@);
    assert(body(Err(text)) == none.push(said));
    sent_one_by_one(none, said);
    sent_one_by_one(none, line);
    assert(Seq::<u8>::empty() + said.bytes == said.bytes);
    assert(Seq::<u8>::empty() + line.bytes == line.bytes);
    if !first {
        assert(page(Err(text), first) == none.push(line) + none.push(said));
        sent_over_both(none.push(line), none.push(said), Channel::Stdout);
        sent_over_both(none.push(line), none.push(said), Channel::Stderr);
        assert(line.bytes + Seq::<u8>::empty() == line.bytes);
    }
}

/// For each directory, what goes to the standard output comes ahead of what goes
/// to the error output.
pub proof fn standard_output_comes_first(shown: ShownView, first: bool)
    ensures
        forall|i: int, j: int|
            0 <= i < j < page(shown, first).len() && (#[trigger] page(shown, first)[i]).channel
                == Channel::Stderr ==> (#[trigger] page(shown, first)[j]).channel
                == Channel::Stderr,
{
}

/// The pages come one after the other: the first directory has none ahead, and
/// every further one is a page that is not the first.
pub proof fn pages_follow_each_other(all: Seq<ShownView>, last: ShownView)
    ensures
        pages(Seq::empty()) == Seq::<WriteView>::empty(),
        pages(all.push(last)) == pages(all) + page(last, all.len() == 0),
{
    assert(all.push(last).drop_last() == all);
}

} // verus!
