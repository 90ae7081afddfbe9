//! Locals of the LuaJIT back end: registers become numbered Lua locals up
//! to the physical register count, and slots of a per-function stack table
//! after that; and the text the printer writes for them.

use vstd::prelude::*;

use crate::policy::PHYSICAL_REGISTERS;
use crate::text::{decimal, push_decimal, push_signed_decimal, push_str, signed_decimal};

verus! {

/// A numbered LuaJIT local variable.
#[derive(Clone, Copy, PartialEq, Eq, Structural)]
pub struct Name {
    pub id: u32,
}

/// Where a LuaJIT value lives: a local variable, or a slot of the stack table.
#[derive(Clone, Copy, PartialEq, Eq, Structural)]
pub enum Local {
    Fast { name: Name },
    Slow { offset: u16 },
}

/// The local a register is held in: registers below the physical count are
/// locals of the same number, the others are stack slots counted from there.
pub fn register_to_local(register: u32) -> (local: Local)
    requires
        register < PHYSICAL_REGISTERS || register - PHYSICAL_REGISTERS <= u16::MAX,
    ensures
        register < PHYSICAL_REGISTERS ==> local == (Local::Fast { name: Name { id: register } }),
        register >= PHYSICAL_REGISTERS ==> local == (Local::Slow {
            offset: (register - PHYSICAL_REGISTERS) as u16,
        }),
{
    if register < PHYSICAL_REGISTERS {
        Local::Fast { name: Name { id: register } }
    } else {
        let offset = (register - PHYSICAL_REGISTERS) as u16;
        Local::Slow { offset }
    }
}

/// The names `start, start + 1, .., end - 1`.
pub open spec fn names_between(start: int, end: int) -> Seq<Name> {
    Seq::new((if end > start { end - start } else { 0 }) as nat, |i: int| Name { id: (start + i) as u32 })
}

fn names_from(start: u32, end: u32) -> (names: Vec<Name>)
    ensures
        names@ == names_between(start as int, end as int),
{
    let mut names: Vec<Name> = Vec::new();
    if start >= end {
        assert(names@ =~= names_between(start as int, end as int));
        return names;
    }
    let mut id = start;
    while id < end
        invariant
            start <= id <= end,
            names@ == names_between(start as int, id as int),
        decreases end - id,
    {
        names.push(Name { id });
        assert(names@ =~= names_between(start as int, id + 1));
        id = id + 1;
    }
    names
}

/// The locals a function declares besides its arguments: the registers from
/// its argument count up to its peak register use, capped at the physical
/// register count.
pub fn fast_locals_for(peak: u32, argument_count: u16) -> (names: Vec<Name>)
    ensures
        names@ == names_between(
            argument_count as int,
            if peak < PHYSICAL_REGISTERS { peak as int } else { PHYSICAL_REGISTERS as int },
        ),
{
    let fast_count = if peak < PHYSICAL_REGISTERS { peak } else { PHYSICAL_REGISTERS };
    names_from(argument_count as u32, fast_count)
}

/// The names of a function's arguments: the first `argument_count` locals.
pub fn collect_argument_names(argument_count: u16) -> (names: Vec<Name>)
    ensures
        names@ == names_between(0, argument_count as int),
{
    names_from(0, argument_count as u32)
}

/// The stack table sizes a function can acquire.
pub open spec fn size_classes() -> Seq<u16> {
    seq![0u16, 16, 64, 256, 1024, 4096, 16384]
}

/// The count of registers of a peak use that do not fit the physical ones.
pub open spec fn spill_of(peak: u32) -> int {
    if peak > PHYSICAL_REGISTERS { peak - PHYSICAL_REGISTERS } else { 0 }
}

/// The smallest stack size class that holds the registers spilled by a
/// function whose register use peaks at `peak`.
pub fn stack_size_class_for(peak: u32) -> (class: u16)
    requires
        spill_of(peak) <= 16384,
    ensures
        size_classes().contains(class),
        class >= spill_of(peak),
        forall|i: int| 0 <= i < size_classes().len() && size_classes()[i] >= spill_of(peak) ==> class
            <= size_classes()[i],
{
    let spill = if peak > PHYSICAL_REGISTERS { peak - PHYSICAL_REGISTERS } else { 0 };
    let classes: [u16; 7] = [0, 16, 64, 256, 1024, 4096, 16384];
    assert(classes@ == size_classes());
    let mut i: usize = 0;
    while i < 7
        invariant
            i <= 7,
            classes@ == size_classes(),
            spill == spill_of(peak),
            spill <= 16384,
            forall|k: int| 0 <= k < i ==> (classes@[k] as int) < spill,
        decreases 7 - i,
    {
        if classes[i] as u32 >= spill {
            assert forall|k: int| 0 <= k < size_classes().len() && size_classes()[k] >= spill_of(peak)
                implies classes[i as int] <= size_classes()[k] by {
                if k < i {
                    assert((classes@[k] as int) < spill);
                } else {
                    assert(classes@[k] >= classes@[i as int]);
                }
            }
            return classes[i];
        }
        i = i + 1;
    }
    assert((classes@[6] as int) < spill);
    0
}

/// A `hashbrown::HashMap` from local numbers to the names they print as.
#[verifier::external_body]
pub struct NameMap {
    map: hashbrown::HashMap<u32, String>,
}

/// The entries of a [`NameMap`].
pub uninterp spec fn names_of(map: NameMap) -> Map<u32, Seq<char>>;

impl NameMap {
    /// An empty map.
    ///
    /// Calls `hashbrown::HashMap::new`, which creates a map with no entries.
    #[verifier::external_body]
    pub fn new() -> (map: Self)
        ensures
            names_of(map).dom() == Set::<u32>::empty(),
    {
        NameMap { map: hashbrown::HashMap::new() }
    }

    /// The name recorded for local `id`, if any.
    ///
    /// Calls `hashbrown::HashMap::get`, which returns the value stored under
    /// the key, or `None` when there is none.
    #[verifier::external_body]
    pub fn get(&self, id: u32) -> (name: Option<&str>)
        ensures
            name.is_some() == names_of(*self).contains_key(id),
            name.is_some() ==> name.unwrap()@ == names_of(*self)[id],
    {
        self.map.get(&id).map(|name| name.as_str())
    }
}

/// Prints LuaJIT code, keeping the indentation depth.
pub struct LuaJITPrinter {
    names: NameMap,
    depth: u16,
}

/// `count` tab characters.
pub open spec fn tabs(count: nat) -> Seq<char> {
    Seq::new(count, |i: int| '\t')
}

/// The text of a local's name: its recorded name, or `loc`, then `_`, its
/// number and `_`.
pub open spec fn name_text(names: Map<u32, Seq<char>>, name: Name) -> Seq<char> {
    (if names.contains_key(name.id) { names[name.id] } else { "loc"@ }) + seq!['_'] + decimal(
        name.id as nat,
    ) + seq!['_']
}

/// The text of a local: its name, or `stack[n]` for the stack slot at
/// offset `n - 1`.
pub open spec fn local_text(names: Map<u32, Seq<char>>, local: Local) -> Seq<char> {
    match local {
        Local::Fast { name } => name_text(names, name),
        Local::Slow { offset } => "stack["@ + decimal(offset as nat + 1) + seq![']'],
    }
}

/// Names joined by `", "`.
pub open spec fn names_joined(names: Map<u32, Seq<char>>, list: Seq<Name>) -> Seq<char>
    decreases list.len(),
{
    if list.len() == 0 {
        Seq::empty()
    } else if list.len() == 1 {
        name_text(names, list[0])
    } else {
        names_joined(names, list.drop_last()) + ", "@ + name_text(names, list.last())
    }
}

impl LuaJITPrinter {
    /// The names recorded for locals.
    pub closed spec fn names(&self) -> Map<u32, Seq<char>> {
        names_of(self.names)
    }

    /// The indentation depth.
    pub closed spec fn depth(&self) -> u16 {
        self.depth
    }

    /// A printer at depth zero with no recorded names.
    pub fn new() -> (printer: Self)
        ensures
            printer.depth() == 0,
            printer.names().dom() == Set::<u32>::empty(),
    {
        LuaJITPrinter { names: NameMap::new(), depth: 0 }
    }

    /// Appends the indentation: one tab per level.
    pub fn tab(&self, text: &mut String)
        ensures
            final(text)@ == old(text)@ + tabs(self.depth() as nat),
    {
        let mut i: u16 = 0;
        while i < self.depth
            invariant
                i <= self.depth,
                text@ == old(text)@ + tabs(i as nat),
            decreases self.depth - i,
        {
            crate::text::push_char(text, '\t');
            assert(text@ =~= old(text)@ + tabs((i + 1) as nat));
            i = i + 1;
        }
    }

    /// The name recorded for `name`, if any.
    pub fn get_name(&self, name: Name) -> (found: Option<&str>)
        ensures
            found.is_some() == self.names().contains_key(name.id),
            found.is_some() ==> found.unwrap()@ == self.names()[name.id],
    {
        self.names.get(name.id)
    }

    /// Increases the indentation by one level, wrapping around.
    pub fn indent(&mut self)
        ensures
            final(self).depth() == (if old(self).depth() == u16::MAX { 0 } else { old(self).depth() + 1 }),
            final(self).names() == old(self).names(),
    {
        self.depth = self.depth.wrapping_add(1);
    }

    /// Decreases the indentation by one level, wrapping around.
    pub fn outdent(&mut self)
        ensures
            final(self).depth() == (if old(self).depth() == 0 { u16::MAX } else { (old(self).depth() - 1) as u16 }),
            final(self).names() == old(self).names(),
    {
        self.depth = self.depth.wrapping_sub(1);
    }

    /// Appends the text of a local's name.
    pub fn print_name(&self, name: Name, text: &mut String)
        ensures
            final(text)@ == old(text)@ + name_text(self.names(), name),
    {
        let prefix = match self.get_name(name) {
            Some(prefix) => prefix,
            None => "loc",
        };
        push_str(text, prefix);
        crate::text::push_char(text, '_');
        push_decimal(text, name.id as u64);
        crate::text::push_char(text, '_');
        assert(final(text)@ =~= old(text)@ + name_text(self.names(), name));
    }

    /// Appends the text of a local.
    pub fn print_local(&self, local: Local, text: &mut String)
        ensures
            final(text)@ == old(text)@ + local_text(self.names(), local),
    {
        match local {
            Local::Fast { name } => self.print_name(name, text),
            Local::Slow { offset } => {
                push_str(text, "stack[");
                push_decimal(text, offset as u64 + 1);
                crate::text::push_char(text, ']');
                assert(final(text)@ =~= old(text)@ + local_text(self.names(), local));
            },
        }
    }
}

impl Default for LuaJITPrinter {
    /// A printer at depth zero with no recorded names.
    fn default() -> (printer: Self)
        ensures
            printer.depth() == 0,
            printer.names().dom() == Set::<u32>::empty(),
    {
        Self::new()
    }
}

/// Appends a 32-bit integer constant.
pub fn print_i32(value: i32, text: &mut String)
    ensures
        final(text)@ == old(text)@ + signed_decimal(value as int),
{
    push_signed_decimal(text, value as i64);
}

/// Appends a 64-bit integer constant, with LuaJIT's `LL` suffix.
pub fn print_i64(value: i64, text: &mut String)
    ensures
        final(text)@ == old(text)@ + signed_decimal(value as int) + "LL"@,
{
    push_signed_decimal(text, value);
    push_str(text, "LL");
}

/// Appends the line that acquires a stack table of `size` slots, unless the
/// function needs none.
pub fn fmt_stack_enter(size: u16, printer: &LuaJITPrinter, text: &mut String)
    ensures
        final(text)@ == if size == 0 {
            old(text)@
        } else {
            old(text)@ + tabs(printer.depth() as nat) + "local stack = stack_acquire("@ + decimal(
                size as nat,
            ) + ")\n"@
        },
{
    if size == 0 {
        return;
    }
    printer.tab(text);
    push_str(text, "local stack = stack_acquire(");
    push_decimal(text, size as u64);
    push_str(text, ")\n");
}

/// Appends the line that releases a stack table of `size` slots, unless the
/// function needs none.
pub fn fmt_stack_leave(size: u16, printer: &LuaJITPrinter, text: &mut String)
    ensures
        final(text)@ == if size == 0 {
            old(text)@
        } else {
            old(text)@ + tabs(printer.depth() as nat) + "stack_release("@ + decimal(size as nat)
                + ", stack)\n"@
        },
{
    if size == 0 {
        return;
    }
    printer.tab(text);
    push_str(text, "stack_release(");
    push_decimal(text, size as u64);
    push_str(text, ", stack)\n");
}

/// Appends the declaration of a function's locals, unless it has none.
pub fn fmt_locals(names: &[Name], printer: &LuaJITPrinter, text: &mut String)
    ensures
        final(text)@ == if names@.len() == 0 {
            old(text)@
        } else {
            old(text)@ + tabs(printer.depth() as nat) + "local "@ + names_joined(printer.names(), names@)
                + "\n"@
        },
{
    if names.len() == 0 {
        return;
    }
    printer.tab(text);
    push_str(text, "local ");
    let ghost start = text@;
    let mut i: usize = 0;
    while i < names.len()
        invariant
            i <= names@.len(),
            text@ == start + names_joined(printer.names(), names@.take(i as int)),
        decreases names.len() - i,
    {
        if i > 0 {
            push_str(text, ", ");
        }
        printer.print_name(names[i], text);
        proof {
            let list = names@.take(i + 1);
            assert(list.drop_last() =~= names@.take(i as int));
            if i == 0 {
                assert(names_joined(printer.names(), names@.take(0)) =~= Seq::<char>::empty());
            }
            assert(text@ =~= start + names_joined(printer.names(), list));
        }
        i = i + 1;
    }
    assert(names@.take(i as int) =~= names@);
    push_str(text, "\n");
}

} // verus!
