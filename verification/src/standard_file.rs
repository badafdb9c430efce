use vstd::prelude::*;

verus! {

/// A modal file dialog that the guest asks for.
#[derive(Clone, Debug, PartialEq, Eq)]
pub enum StandardFileDialogRequest {
    Open {
        /// The file types that the caller accepts; `None` stands for all.
        allowed_file_types: Option<Vec<u32>>,
    },
    Save { prompt: String, default_name: String },
}

/// What the host answers once its own dialog is done.
#[derive(Clone, Debug, PartialEq, Eq)]
pub enum StandardFileDialogResponse {
    Cancel,
    Open { name: String },
    Save { name: String },
}

/// A request as a mathematical value.
pub enum RequestView {
    Open { allowed_file_types: Option<Seq<u32>> },
    Save { prompt: Seq<char>, default_name: Seq<char> },
}

/// A response as a mathematical value.
pub enum ResponseView {
    Cancel,
    Open { name: Seq<char> },
    Save { name: Seq<char> },
}

/// The types of a list, should there be one.
pub open spec fn types_view(types: Option<Vec<u32>>) -> Option<Seq<u32>> {
    match types {
        Some(v) => Some(v@),
        None => None,
    }
}

impl StandardFileDialogRequest {
    pub open spec fn view(&self) -> RequestView {
        match *self {
            StandardFileDialogRequest::Open { allowed_file_types } => RequestView::Open {
                allowed_file_types: types_view(allowed_file_types),
            },
            StandardFileDialogRequest::Save { prompt, default_name } => RequestView::Save {
                prompt: prompt@,
                default_name: default_name@,
            },
        }
    }
}

impl StandardFileDialogResponse {
    pub open spec fn view(&self) -> ResponseView {
        match *self {
            StandardFileDialogResponse::Cancel => ResponseView::Cancel,
            StandardFileDialogResponse::Open { name } => ResponseView::Open { name: name@ },
            StandardFileDialogResponse::Save { name } => ResponseView::Save { name: name@ },
        }
    }
}

/// A dialog to open a file that the guest waits in.
pub struct OpenTracking {
    /// The host shows the dialog.
    pub native: bool,
    pub allowed_file_types: Option<Vec<u32>>,
    pub dir_id: u32,
}

/// A dialog to save a file that the guest waits in.
#[derive(Clone, Copy, Debug, PartialEq, Eq)]
pub struct SaveTracking {
    /// The host shows the dialog.
    pub native: bool,
    pub dir_id: u32,
}

/// A dialog to open a file as a mathematical value.
pub struct OpenTrackingView {
    pub native: bool,
    pub allowed_file_types: Option<Seq<u32>>,
    pub dir_id: u32,
}

impl OpenTracking {
    pub open spec fn view(&self) -> OpenTrackingView {
        OpenTrackingView {
            native: self.native,
            allowed_file_types: types_view(self.allowed_file_types),
            dir_id: self.dir_id,
        }
    }

    /// Whether a file of this type may be opened.
    pub fn accepts(&self, file_type: u32) -> (r: bool)
        ensures
            r == self@.accepted(file_type),
    {
        match &self.allowed_file_types {
            None => true,
            Some(types) => {
                let mut i: usize = 0;
                while i < types.len()
                    invariant
                        i <= types.len(),
                        self@.allowed_file_types == Some(types@),
                        forall|k: int| 0 <= k < i ==> types@[k] != file_type,
                    decreases types.len() - i,
                {
                    if types[i] == file_type {
                        assert(types@.contains(file_type));
                        return true;
                    }
                    i += 1;
                }
                false
            },
        }
    }
}

impl OpenTrackingView {
    /// A file of this type may be opened.
    pub open spec fn accepted(self, file_type: u32) -> bool {
        match self.allowed_file_types {
            None => true,
            Some(types) => types.contains(file_type),
        }
    }
}

/// The state of the Standard File Package.
pub struct StandardFile {
    /// The host shows file dialogs in place of the guest.
    pub native_dialogs: bool,
    pub request: Option<StandardFileDialogRequest>,
    pub response: Option<StandardFileDialogResponse>,
    pub get_tracking: Option<OpenTracking>,
    pub put_tracking: Option<SaveTracking>,
}

/// That state as a mathematical value.
pub struct StandardFileView {
    pub native_dialogs: bool,
    pub request: Option<RequestView>,
    pub response: Option<ResponseView>,
    pub get_tracking: Option<OpenTrackingView>,
    pub put_tracking: Option<SaveTracking>,
}

/// Why a dialog could not be completed.
#[derive(Clone, Copy, Debug, PartialEq, Eq, Structural)]
pub enum StandardFileError {
    /// The guest waits in no dialog of this kind that the host shows.
    NoDialog,
    /// The guest does not accept files of this type.
    TypeNotAccepted(u32),
    /// There is no file name.
    NoFileName,
    /// The folder with this number is not there.
    DirectoryNotMounted(u32),
}

impl StandardFile {
    pub open spec fn view(&self) -> StandardFileView {
        StandardFileView {
            native_dialogs: self.native_dialogs,
            request: match self.request {
                Some(r) => Some(r@),
                None => None,
            },
            response: match self.response {
                Some(r) => Some(r@),
                None => None,
            },
            get_tracking: match self.get_tracking {
                Some(t) => Some(t@),
                None => None,
            },
            put_tracking: self.put_tracking,
        }
    }

    /// No dialog.
    pub fn new() -> (r: Self)
        ensures
            r@ == fresh_standard_file(),
    {
        StandardFile { native_dialogs: false, request: None, response: None, get_tracking: None, put_tracking: None }
    }

    /// Lets the host show file dialogs, or not; without it what was asked and
    /// answered is forgotten.
    pub fn set_native_dialogs(&mut self, enabled: bool)
        ensures
            final(self)@ == (StandardFileView {
                native_dialogs: enabled,
                request: if enabled { old(self)@.request } else { None },
                response: if enabled { old(self)@.response } else { None },
                ..old(self)@
            }),
    {
        self.native_dialogs = enabled;
        if !enabled {
            self.request = None;
            self.response = None;
        }
    }

    /// Takes the request, should there be one.
    pub fn take_request(&mut self) -> (r: Option<StandardFileDialogRequest>)
        ensures
            final(self)@ == (StandardFileView { request: None, ..old(self)@ }),
            r is Some <==> old(self)@.request is Some,
            r matches Some(q) ==> q@ == old(self)@.request->0,
    {
        self.request.take()
    }

    /// Answers the dialog.
    pub fn respond(&mut self, response: StandardFileDialogResponse)
        ensures
            final(self)@ == (StandardFileView { response: Some(response@), ..old(self)@ }),
    {
        self.response = Some(response);
    }
}

/// No dialog.
pub open spec fn fresh_standard_file() -> StandardFileView {
    StandardFileView { native_dialogs: false, request: None, response: None, get_tracking: None, put_tracking: None }
}

} // verus!
