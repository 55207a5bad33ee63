//! The document picker.
//!
//! An application reads and writes inside its own container only. Files cross its border in copies:
//! the user picks files, and the application gets local copies; or it hands out files of its own,
//! and the user says where the system copies them to. One picker is shown at a time: a request while
//! one is showing fails.

use vstd::prelude::*;

verus! {

/// Why a picker is not shown.
#[derive(Clone, Copy, Debug, PartialEq, Eq, Structural)]
pub enum PickerError {
    NotOnMainThread,
    AlreadyShowing,
    NoPresenter,
}

impl PickerError {
    pub open spec fn text(self) -> Seq<char> {
        match self {
            PickerError::NotOnMainThread => {
                "the document picker must be presented from the main thread"@
            },
            PickerError::AlreadyShowing => "a document picker is already showing"@,
            PickerError::NoPresenter => {
                "there is no view controller to present the document picker from"@
            },
        }
    }

    pub fn message(&self) -> (r: &'static str)
        ensures
            r@ == self.text(),
    {
        match self {
            PickerError::NotOnMainThread => {
                "the document picker must be presented from the main thread"
            },
            PickerError::AlreadyShowing => "a document picker is already showing",
            PickerError::NoPresenter => {
                "there is no view controller to present the document picker from"
            },
        }
    }
}

/// What receives the outcome of a picker. The sender is named by a number and is used once.
#[derive(Clone, Copy, Debug, PartialEq, Eq, Structural)]
pub struct PickerDelegate {
    pub sender: Option<u64>,
}

/// The picker that is showing, if one is.
#[derive(Clone, Copy, Debug, PartialEq, Eq, Structural)]
pub struct Picker {
    pub active: Option<PickerDelegate>,
}

/// What comes of a request: an error, nothing where the user cancelled, or paths.
pub type PickerOutcome = Result<Option<Vec<String>>, PickerError>;

impl Picker {
    pub fn new() -> (r: Picker)
        ensures
            r.active is None,
    {
        Picker { active: None }
    }

    /// Whether a picker can be shown.
    pub open spec fn refusal(self, on_main_thread: bool, has_presenter: bool) -> Option<
        PickerError,
    > {
        if !on_main_thread {
            Some(PickerError::NotOnMainThread)
        } else if self.active is Some {
            Some(PickerError::AlreadyShowing)
        } else if !has_presenter {
            Some(PickerError::NoPresenter)
        } else {
            None
        }
    }

    /// Why a picker cannot be shown now, if it cannot.
    pub fn check(&self, on_main_thread: bool, has_presenter: bool) -> (r: Option<PickerError>)
        ensures
            r == self.refusal(on_main_thread, has_presenter),
    {
        if !on_main_thread {
            Some(PickerError::NotOnMainThread)
        } else if self.active.is_some() {
            Some(PickerError::AlreadyShowing)
        } else if !has_presenter {
            Some(PickerError::NoPresenter)
        } else {
            None
        }
    }

    /// Asks for a picker to be shown, whose outcome goes to a sender.
    fn present(&mut self, on_main_thread: bool, has_presenter: bool, sender: u64) -> (r: Result<
        (),
        PickerError,
    >)
        ensures
            match old(self).refusal(on_main_thread, has_presenter) {
                Some(error) => r == Err::<(), PickerError>(error) && *final(self) == *old(self),
                None => {
                    &&& r is Ok
                    &&& *final(self) == Picker::showing(sender)
                    &&& final(self).active == Some(PickerDelegate { sender: Some(sender) })
                },
            },
    {
        if let Some(error) = self.check(on_main_thread, has_presenter) {
            return Err(error);
        }
        self.active = Some(PickerDelegate { sender: Some(sender) });
        Ok(())
    }

    /// The picker while one is showing whose outcome goes to a sender.
    pub open spec fn showing(sender: u64) -> Picker {
        Picker { active: Some(PickerDelegate { sender: Some(sender) }) }
    }

    /// A picker is done. Says where the outcome goes; it goes there once. Another picker can then be
    /// shown.
    pub fn finish(&mut self, delegate: &mut PickerDelegate) -> (r: Option<u64>)
        ensures
            r == old(delegate).sender,
            final(delegate).sender is None,
            final(self).active is None,
    {
        let sender = delegate.sender;
        delegate.sender = None;
        self.active = None;
        sender
    }
}

/// What is there of a list.
pub open spec fn present_of<T>(list: Seq<Option<T>>) -> Seq<T>
    decreases list.len(),
{
    if list.len() == 0 {
        seq![]
    } else {
        match list.last() {
            Some(item) => present_of(list.drop_last()).push(item),
            None => present_of(list.drop_last()),
        }
    }
}

/// The paths of what was picked. A document without a path is left out.
pub fn did_pick_documents(paths: &Vec<Option<String>>) -> (r: PickerOutcome)
    ensures
        r is Ok,
        r->Ok_0 is Some,
        r->Ok_0->0@ == present_of(paths@),
{
    let mut picked: Vec<String> = Vec::new();
    let mut i: usize = 0;
    assert(paths@.take(0) =~= Seq::<Option<String>>::empty());
    while i < paths.len()
        invariant
            i <= paths@.len(),
            picked@ == present_of(paths@.take(i as int)),
        decreases paths@.len() - i,
    {
        assert(paths@.take(i + 1).drop_last() =~= paths@.take(i as int));
        if let Some(path) = &paths[i] {
            picked.push(path.clone());
        }
        i = i + 1;
    }
    assert(paths@.take(i as int) =~= paths@);
    Ok(Some(picked))
}

/// The user cancelled.
pub fn was_cancelled() -> (r: PickerOutcome)
    ensures
        r is Ok,
        r->Ok_0 is None,
{
    Ok(None)
}

/// The name of the type of any file.
pub const ANY_FILE: &'static str = "public.data";

/// The types of files that can be picked: those of the extensions that have one, or any file where
/// no extension is given. `found` holds the type of each extension, if it has one, and `any` that of
/// any file, if the system has one. A type is named by a number.
pub open spec fn pick_types(found: Seq<Option<u64>>, any: Option<u64>) -> Seq<u64> {
    if found.len() == 0 {
        present_of(seq![any])
    } else {
        present_of(found)
    }
}

fn types_of(found: &Vec<Option<u64>>, any: Option<u64>) -> (r: Vec<u64>)
    ensures
        r@ == pick_types(found@, any),
{
    let mut types: Vec<u64> = Vec::new();
    let mut i: usize = 0;
    assert(found@.take(0) =~= Seq::<Option<u64>>::empty());
    while i < found.len()
        invariant
            i <= found@.len(),
            types@ == present_of(found@.take(i as int)),
        decreases found@.len() - i,
    {
        assert(found@.take(i + 1).drop_last() =~= found@.take(i as int));
        if let Some(kind) = found[i] {
            types.push(kind);
        }
        i = i + 1;
    }
    assert(found@.take(i as int) =~= found@);
    if found.len() == 0 {
        assert(seq![any].drop_last() =~= Seq::<Option<u64>>::empty());
        if let Some(kind) = any {
            types.push(kind);
        }
    }
    types
}

/// How a picker for files to open is made. The files are copied into the container.
#[derive(Debug)]
pub struct OpenRequest {
    /// The types of files that can be picked.
    pub types: Vec<u64>,
    pub multiple: bool,
}

/// How a picker for a place to copy files to is made.
#[derive(Debug)]
pub struct ExportRequest {
    pub paths: Vec<String>,
}

impl Picker {
    /// Lets the user choose files to open.
    pub fn pick_files(
        &mut self,
        on_main_thread: bool,
        has_presenter: bool,
        sender: u64,
        found: &Vec<Option<u64>>,
        any: Option<u64>,
        multiple: bool,
    ) -> (r: Result<OpenRequest, PickerError>)
        ensures
            match old(self).refusal(on_main_thread, has_presenter) {
                Some(error) => r == Err::<OpenRequest, PickerError>(error) && *final(self) == *old(
                    self,
                ),
                None => {
                    &&& r is Ok
                    &&& r->Ok_0.types@ == pick_types(found@, any)
                    &&& r->Ok_0.multiple == multiple
                    &&& *final(self) == Picker::showing(sender)
                    &&& final(self).active == Some(PickerDelegate { sender: Some(sender) })
                },
            },
    {
        match self.present(on_main_thread, has_presenter, sender) {
            Ok(_) => Ok(OpenRequest { types: types_of(found, any), multiple }),
            Err(error) => Err(error),
        }
    }

    /// Lets the user copy files of the container to a place of their choice. The application still
    /// owns the originals.
    pub fn export_files(
        &mut self,
        on_main_thread: bool,
        has_presenter: bool,
        sender: u64,
        paths: Vec<String>,
    ) -> (r: Result<ExportRequest, PickerError>)
        ensures
            match old(self).refusal(on_main_thread, has_presenter) {
                Some(error) => r == Err::<ExportRequest, PickerError>(error) && *final(self)
                    == *old(self),
                None => {
                    &&& r is Ok
                    &&& r->Ok_0.paths == paths
                    &&& *final(self) == Picker::showing(sender)
                    &&& final(self).active == Some(PickerDelegate { sender: Some(sender) })
                },
            },
    {
        match self.present(on_main_thread, has_presenter, sender) {
            Ok(_) => Ok(ExportRequest { paths }),
            Err(error) => Err(error),
        }
    }
}

/// While a picker is showing, no other can be shown; once it is done, one can.
pub proof fn law_one_picker_at_a_time(picker: Picker, has_presenter: bool)
    ensures
        picker.active is Some ==> picker.refusal(true, has_presenter) == Some(
            PickerError::AlreadyShowing,
        ),
        picker.active is None ==> picker.refusal(true, true) is None,
{
}

/// A picker is refused off the main thread, whatever else holds; then while another is showing; then
/// where nothing can show it. It is shown in every other case.
pub proof fn law_a_picker_is_refused_for_a_reason(
    picker: Picker,
    on_main_thread: bool,
    has_presenter: bool,
)
    ensures
        picker.refusal(on_main_thread, has_presenter) == Some(PickerError::NotOnMainThread)
            <==> !on_main_thread,
        picker.refusal(on_main_thread, has_presenter) == Some(PickerError::AlreadyShowing)
            <==> on_main_thread && picker.active is Some,
        picker.refusal(on_main_thread, has_presenter) == Some(PickerError::NoPresenter)
            <==> on_main_thread && picker.active is None && !has_presenter,
        picker.refusal(on_main_thread, has_presenter) is None <==> on_main_thread && picker.active
            is None && has_presenter,
{
}

/// No two errors have the same message.
pub proof fn law_messages_tell_errors_apart(a: PickerError, b: PickerError)
    ensures
        a.text() == b.text() ==> a == b,
        a.text().len() > 0,
{
    reveal_strlit("the document picker must be presented from the main thread");
    reveal_strlit("a document picker is already showing");
    reveal_strlit("there is no view controller to present the document picker from");
}

/// What is there of two lists is there of them joined, in order.
pub proof fn law_what_is_there_stays_in_order<T>(front: Seq<Option<T>>, back: Seq<Option<T>>, item: T)
    ensures
        present_of(front + back) == present_of(front) + present_of(back),
        present_of(seq![Some(item)]) == seq![item],
        present_of(seq![None::<T>]) == Seq::<T>::empty(),
    decreases back.len(),
{
    assert(present_of(seq![Some(item)]) =~= seq![item] && present_of(seq![None::<T>]) =~= Seq::<
        T,
    >::empty()) by {
        reveal_with_fuel(present_of, 2);
    }
    if back.len() == 0 {
        assert(front + back =~= front);
        assert(present_of(front) + Seq::<T>::empty() =~= present_of(front));
    } else {
        let all = front + back;
        assert(all.drop_last() =~= front + back.drop_last());
        assert(all.last() == back.last());
        law_what_is_there_stays_in_order(front, back.drop_last(), item);
        assert(present_of(all) =~= present_of(front) + present_of(back));
    }
}

/// Every type that an extension has can be picked and no other; any file can be picked only where no
/// extension is given at all.
pub proof fn law_only_types_of_extensions_can_be_picked(
    found: Seq<Option<u64>>,
    any: Option<u64>,
    kind: u64,
)
    ensures
        found.len() > 0 ==> (pick_types(found, any).contains(kind) <==> exists|i: int|
            0 <= i < found.len() && #[trigger] found[i] == Some(kind)),
        found.len() == 0 ==> (pick_types(found, any).contains(kind) <==> any == Some(kind)),
        found.len() == 0 ==> pick_types(found, any).len() <= 1,
        pick_types(found, any).len() <= found.len() + 1,
{
    lemma_present(found, kind);
    if found.len() == 0 {
        lemma_present(seq![any], kind);
        assert(seq![any][0] == any);
    }
}

proof fn lemma_present(list: Seq<Option<u64>>, kind: u64)
    ensures
        present_of(list).contains(kind) <==> exists|i: int|
            0 <= i < list.len() && #[trigger] list[i] == Some(kind),
        present_of(list).len() <= list.len(),
    decreases list.len(),
{
    if list.len() > 0 {
        let shorter = list.drop_last();
        lemma_present(shorter, kind);
        let before = present_of(shorter);
        let all = present_of(list);
        if before.contains(kind) {
            let k = choose|k: int| 0 <= k < before.len() && before[k] == kind;
            assert(all[k] == kind);
            let i = choose|i: int| 0 <= i < shorter.len() && #[trigger] shorter[i] == Some(kind);
            assert(list[i] == Some(kind));
        }
        if list.last() == Some(kind) {
            assert(all[all.len() - 1] == kind);
            assert(list[list.len() - 1] == Some(kind));
        }
        if all.contains(kind) {
            let k = choose|k: int| 0 <= k < all.len() && all[k] == kind;
            if k < before.len() {
                assert(before[k] == kind);
            } else {
                assert(list.last() == Some(kind));
            }
        }
        if exists|i: int| 0 <= i < list.len() && #[trigger] list[i] == Some(kind) {
            let i = choose|i: int| 0 <= i < list.len() && #[trigger] list[i] == Some(kind);
            if i < shorter.len() {
                assert(shorter[i] == Some(kind));
            }
        }
    }
}

/// A picker that is showing hands its outcome to the sender that it was asked for by, and lets no other be
/// shown.
pub proof fn law_the_outcome_goes_to_the_sender(sender: u64, has_presenter: bool)
    ensures
        Picker::showing(sender).active matches Some(delegate) && delegate.sender == Some(sender),
        Picker::showing(sender).refusal(true, has_presenter) == Some(PickerError::AlreadyShowing),
{
}

} // verus!
