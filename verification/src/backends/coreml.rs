//! The Core ML engine.
//!
//! A whole model goes to the system's framework. Two things set this backend
//! apart. Models come from files only: Core ML does not take bytes. And
//! `.mlpackage` is a source format, compiled to `.mlmodelc` before it runs.
//!
//! A model has a single method, entered through
//! [`Method::PrefixEnc`](crate::Method::PrefixEnc).

pub mod pipeline;
pub mod run;

use crate::text::{contains_nul, has_nul, integer, push_i32, str_texts};
use crate::{EngineConfig, EngineError, ErrorSpec, Method};
use vstd::prelude::*;

verus! {

/// A loaded model.
pub struct CoreMlEngine {
    /// The native model.
    pub handle: usize,
    /// The feature name of each input, by position.
    ///
    /// Core ML takes inputs by name, and callers give them by position. The
    /// model's own description is a dictionary without an order, so the names
    /// are pinned. A model with one input needs none.
    pub input_names: Vec<String>,
    /// The shapes of the last outputs. While shapes are dynamic the description
    /// gives bounds only, and callers ask after a run.
    pub last_shapes: Vec<Vec<i64>>,
}

/// What a [`CoreMlEngine`] holds.
pub struct CoreMlSpec {
    pub handle: usize,
    pub input_names: Seq<Seq<char>>,
    pub last_shapes: Seq<Seq<i64>>,
}

impl View for CoreMlEngine {
    type V = CoreMlSpec;

    open spec fn view(&self) -> CoreMlSpec {
        CoreMlSpec {
            handle: self.handle,
            input_names: Seq::new(self.input_names@.len(), |i: int| self.input_names@[i]@),
            last_shapes: Seq::new(self.last_shapes@.len(), |i: int| self.last_shapes@[i]@),
        }
    }
}

impl CoreMlSpec {
    /// A model that has just been loaded.
    pub open spec fn fresh(handle: usize) -> CoreMlSpec {
        CoreMlSpec { handle, input_names: seq![], last_shapes: seq![] }
    }

    /// The names can be handed to a C interface.
    pub open spec fn well_formed(self) -> bool {
        !any_nul(self.input_names)
    }
}

/// What to load: a model, or one function of a model with several. No text in it
/// has a NUL.
pub struct CoreMlLoad {
    pub path: String,
    pub function: Option<String>,
    pub num_threads: i32,
}

/// What a [`CoreMlLoad`] says.
pub struct LoadSpec {
    pub path: Seq<char>,
    pub function: Option<Seq<char>>,
    pub num_threads: i32,
}

impl View for CoreMlLoad {
    type V = LoadSpec;

    open spec fn view(&self) -> LoadSpec {
        LoadSpec {
            path: self.path@,
            function: match self.function {
                Some(f) => Some(f@),
                None => None,
            },
            num_threads: self.num_threads,
        }
    }
}

/// What opening a function of a model asks for, or why it cannot be asked for.
pub open spec fn load_of(
    path: Seq<char>,
    function: Option<Seq<char>>,
    num_threads: i32,
) -> std::result::Result<LoadSpec, ErrorSpec> {
    if has_nul(path) {
        Err(ErrorSpec::Load("路径含 NUL"@))
    } else if function is Some && has_nul(function.unwrap()) {
        Err(ErrorSpec::Load("函数名含 NUL"@))
    } else {
        Ok(LoadSpec { path, function, num_threads })
    }
}

impl LoadSpec {
    /// What came of loading: a model, or its error code.
    pub open spec fn loaded(self, handle: usize, code: i32) -> std::result::Result<
        CoreMlSpec,
        ErrorSpec,
    > {
        if handle == 0 {
            Err(
                ErrorSpec::Load(
                    "Core ML 加载失败 (code="@ + integer(code as int) + "): "@ + self.path,
                ),
            )
        } else {
            Ok(CoreMlSpec::fresh(handle))
        }
    }
}

/// Two outcomes agree.
pub open spec fn load_agrees(
    r: crate::Result<CoreMlLoad>,
    want: std::result::Result<LoadSpec, ErrorSpec>,
) -> bool {
    match (r, want) {
        (Ok(load), Ok(w)) => load@ == w,
        (Err(e), Err(w)) => e@ == w,
        _ => false,
    }
}

impl CoreMlLoad {
    /// Takes the native model, 0 where there is none, and the error code.
    pub fn loaded(self, handle: usize, code: i32) -> (r: crate::Result<CoreMlEngine>)
        ensures
            match (r, self@.loaded(handle, code)) {
                (Ok(engine), Ok(want)) => engine@ == want && engine@.well_formed(),
                (Err(e), Err(want)) => e@ == want,
                _ => false,
            },
    {
        if handle == 0 {
            let mut m = String::from_str("Core ML 加载失败 (code=");
            push_i32(&mut m, code);
            m.append("): ");
            m.append(self.path.as_str());
            return Err(EngineError::Load(m));
        }
        let r = CoreMlEngine { handle, input_names: Vec::new(), last_shapes: Vec::new() };
        assert(r@.input_names =~= seq![]);
        assert(r@.last_shapes =~= seq![]);
        Ok(r)
    }
}

/// What opening a function of a model asks for.
pub(crate) fn load_for(path: &str, function: Option<&str>, num_threads: i32) -> (r: crate::Result<
    CoreMlLoad,
>)
    ensures
        load_agrees(
            r,
            load_of(
                path@,
                match function {
                    Some(f) => Some(f@),
                    None => None,
                },
                num_threads,
            ),
        ),
{
    if contains_nul(path) {
        return Err(EngineError::Load(String::from_str("路径含 NUL")));
    }
    let function = match function {
        Some(f) => {
            if contains_nul(f) {
                return Err(EngineError::Load(String::from_str("函数名含 NUL")));
            }
            Some(String::from_str(f))
        },
        None => None,
    };
    Ok(CoreMlLoad { path: String::from_str(path), function, num_threads })
}

/// Some name has a NUL.
pub open spec fn any_nul(names: Seq<Seq<char>>) -> bool {
    exists|i: int| 0 <= i < names.len() && has_nul(#[trigger] names[i])
}

impl CoreMlEngine {
    /// What to load for a `.mlpackage` or a compiled `.mlmodelc`.
    pub fn open_path(path: &str, cfg: &EngineConfig) -> (r: crate::Result<CoreMlLoad>)
        ensures
            load_agrees(r, load_of(path@, None, cfg.num_threads)),
    {
        Self::open_function(path, None, cfg)
    }

    /// What to load for a function of a model with several; without a function,
    /// for a model with one.
    pub fn open_function(path: &str, function: Option<&str>, cfg: &EngineConfig) -> (r:
        crate::Result<CoreMlLoad>)
        ensures
            load_agrees(
                r,
                load_of(
                    path@,
                    match function {
                        Some(f) => Some(f@),
                        None => None,
                    },
                    cfg.num_threads,
                ),
            ),
    {
        load_for(path, function, cfg.num_threads)
    }

    /// What to load for `<name>.mlpackage` in a directory.
    pub fn open_in_dir(dir: &str, name: &str, cfg: &EngineConfig) -> (r: crate::Result<CoreMlLoad>)
        ensures
            load_agrees(r, load_of(package_path(dir@, name@), None, cfg.num_threads)),
    {
        let path = package_in(dir, name);
        Self::open_path(path.as_str(), cfg)
    }

    /// Pins the names of the inputs to their positions. A model with several
    /// inputs needs this.
    pub fn with_input_names(self, names: &[&str]) -> (r: crate::Result<Self>)
        ensures
            match r {
                Ok(engine) => !any_nul(str_texts(names@)) && engine@ == (CoreMlSpec {
                    input_names: str_texts(names@),
                    ..self@
                }),
                Err(e) => any_nul(str_texts(names@)) && e@ == ErrorSpec::Load("输入名含 NUL"@),
            },
    {
        let ghost texts = str_texts(names@);
        let mut pinned: Vec<String> = Vec::new();
        let mut i: usize = 0;
        while i < names.len()
            invariant
                i <= names.len(),
                texts == str_texts(names@),
                pinned@.len() == i,
                forall|k: int|
                    0 <= k < i ==> !has_nul(#[trigger] texts[k]) && pinned@[k]@ == texts[k],
            decreases names.len() - i,
        {
            let name = names[i];
            assert(texts[i as int] == name@);
            if contains_nul(name) {
                return Err(EngineError::Load(String::from_str("输入名含 NUL")));
            }
            pinned.push(String::from_str(name));
            i = i + 1;
        }
        let r = CoreMlEngine {
            handle: self.handle,
            input_names: pinned,
            last_shapes: self.last_shapes,
        };
        assert(r@.input_names =~= texts);
        Ok(r)
    }

    /// The name of the backend.
    pub fn backend_name(&self) -> (r: &'static str)
        ensures
            r@ == "coreml"@,
    {
        "coreml"
    }

    /// The shape of an output of the last run, whatever the method.
    pub fn output_shape(&self, _method: Method, index: usize) -> (r: Option<Vec<i64>>)
        ensures
            match r {
                Some(shape) => self@.shape_at(index as int) == Some(shape@),
                None => self@.shape_at(index as int) is None,
            },
    {
        if index < self.last_shapes.len() {
            Some(self.last_shapes[index].clone())
        } else {
            None
        }
    }

    /// Whether the engine has a method: the one entry.
    pub fn has_method(&self, method: Method) -> (r: bool)
        ensures
            r == (method == Method::PrefixEnc),
    {
        method == Method::PrefixEnc
    }
}

/// A source package in a directory.
pub open spec fn package_path(dir: Seq<char>, name: Seq<char>) -> Seq<char> {
    dir + "/"@ + name + ".mlpackage"@
}

/// A compiled model in a directory.
pub open spec fn compiled_path(dir: Seq<char>, name: Seq<char>) -> Seq<char> {
    dir + "/"@ + name + ".mlmodelc"@
}

/// A source package in a directory.
pub fn package_in(dir: &str, name: &str) -> (r: String)
    ensures
        r@ == package_path(dir@, name@),
{
    let mut r = String::from_str(dir);
    r.append("/");
    r.append(name);
    r.append(".mlpackage");
    r
}

/// A compiled model in a directory.
pub fn compiled_in(dir: &str, name: &str) -> (r: String)
    ensures
        r@ == compiled_path(dir@, name@),
{
    let mut r = String::from_str(dir);
    r.append("/");
    r.append(name);
    r.append(".mlmodelc");
    r
}

/// What is loaded is what was asked for: that path, that function and that number
/// of threads. Only a NUL in the path or in the name stands in the way.
pub proof fn loads_ask_for_what_was_asked(
    path: Seq<char>,
    function: Option<Seq<char>>,
    num_threads: i32,
)
    ensures
        path.contains('\0') ==> load_of(path, function, num_threads) == Err::<LoadSpec, ErrorSpec>(
            ErrorSpec::Load("路径含 NUL"@),
        ),
        !path.contains('\0') ==> match function {
            Some(f) if f.contains('\0') => load_of(path, function, num_threads) == Err::<
                LoadSpec,
                ErrorSpec,
            >(ErrorSpec::Load("函数名含 NUL"@)),
            _ => load_of(path, function, num_threads) == Ok::<LoadSpec, ErrorSpec>(
                LoadSpec { path, function, num_threads },
            ),
        },
{
}

/// A model that was loaded is kept by the handle it came with, without names and
/// without shapes; where there is none, the error says the code and the path.
pub proof fn loading_gives_a_model_or_an_error(
    load: CoreMlLoad,
    handle: usize,
    code: i32,
    r: crate::Result<CoreMlEngine>,
)
    requires
        call_ensures(CoreMlLoad::loaded, (load, handle, code), r),
    ensures
        match r {
            Ok(e) => handle != 0 && e.handle == handle && e.input_names@.len() == 0
                && e.last_shapes@.len() == 0,
            Err(e) => handle == 0 && e@ == ErrorSpec::Load(
                "Core ML 加载失败 (code="@ + integer(code as int) + "): "@ + load.path@,
            ),
        },
{
    match r {
        Ok(e) => {
            assert(e@ == CoreMlSpec::fresh(handle));
            assert(e@.input_names.len() == e.input_names@.len());
            assert(e@.last_shapes.len() == e.last_shapes@.len());
        },
        Err(_) => {},
    }
}

/// Names are pinned unless one of them has a NUL.
pub proof fn names_are_pinned_unless_one_has_a_nul(
    engine: CoreMlEngine,
    names: &[&str],
    r: crate::Result<CoreMlEngine>,
    i: int,
)
    requires
        call_ensures(CoreMlEngine::with_input_names, (engine, names), r),
    ensures
        r is Err <==> exists|k: int| 0 <= k < names@.len() && (#[trigger] names@[k])@.contains('\0'),
        r matches Ok(e) ==> {
            &&& e.handle == engine.handle
            &&& e.input_names@.len() == names@.len()
            &&& 0 <= i < names@.len() ==> e.input_names@[i]@ == names@[i]@
        },
{
    let texts = str_texts(names@);
    if any_nul(texts) {
        let k = choose|k: int| 0 <= k < texts.len() && has_nul(#[trigger] texts[k]);
        assert(names@[k]@.contains('\0'));
    }
    if exists|k: int| 0 <= k < names@.len() && (#[trigger] names@[k])@.contains('\0') {
        let k = choose|k: int| 0 <= k < names@.len() && (#[trigger] names@[k])@.contains('\0');
        assert(has_nul(texts[k]));
    }
    match r {
        Ok(e) => {
            assert(e@.input_names.len() == e.input_names@.len());
            if 0 <= i < names@.len() {
                assert(e@.input_names[i] == e.input_names@[i]@);
                assert(texts[i] == names@[i]@);
            }
        },
        Err(_) => {},
    }
}

/// A package and a compiled model lie in their directory, under their name with
/// the ending of their kind.
pub proof fn models_lie_in_their_directory(dir: &str, name: &str, package: String, compiled: String)
    requires
        call_ensures(package_in, (dir, name), package),
        call_ensures(compiled_in, (dir, name), compiled),
    ensures
        package@ == dir@ + "/"@ + name@ + ".mlpackage"@,
        compiled@ == dir@ + "/"@ + name@ + ".mlmodelc"@,
{
}

} // verus!
