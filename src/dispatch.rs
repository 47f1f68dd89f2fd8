use vstd::prelude::*;
use vstd::string::*;
use crate::config::LightfusionConfig;

verus! {

/// The numeric types that a declared column item can have.
#[derive(Debug, Clone, Copy, PartialEq, Eq, Structural)]
pub enum ItemType {
    Float16,
    Float32,
    Float64,
    /// Any type the models do not take.
    Other,
}

/// A declared argument or return type: a single item or a list of items.
#[derive(Debug, Clone, Copy, PartialEq, Eq, Structural)]
pub enum DataKind {
    Item(ItemType),
    List(ItemType),
}

/// The precision pairing chosen for a function: input items, then scores.
#[derive(Debug, Clone, Copy, PartialEq, Eq, Structural)]
pub enum Kernel {
    F32ToF64,
    F64ToF64,
}

/// Why a function could not be created.
#[derive(Debug, Clone, PartialEq, Eq)]
pub enum CreateError {
    /// The function body is an expression other than a string literal;
    /// its rendering is kept for the message.
    UnsupportedExpression(String),
    /// The declared input item type is not a 32- or 64-bit float.
    UnsupportedInput(ItemType),
    /// The declared return item type is not a 64-bit float.
    UnsupportedReturn(ItemType),
}

/// The body of a `CREATE FUNCTION` statement.
#[derive(Debug, Clone)]
pub enum FunctionBody {
    /// A string literal: the model file's path.
    Literal(String),
    /// Any other expression, rendered as text.
    Expression(String),
}

/// All that is needed to load the model and register the function.
#[derive(Debug, Clone)]
pub struct FunctionPlan {
    pub name: String,
    pub model_file: String,
    pub batch_size: usize,
    pub kernel: Kernel,
}

pub open spec fn item_type_of(d: DataKind) -> ItemType {
    match d {
        DataKind::Item(t) => t,
        DataKind::List(t) => t,
    }
}

/// The item type of a declared type: a list stands for its items.
pub fn find_item_type(dtype: DataKind) -> (r: ItemType)
    ensures
        r == item_type_of(dtype),
{
    match dtype {
        DataKind::List(t) => t,
        DataKind::Item(t) => t,
    }
}

pub open spec fn kernel_for(input: ItemType, ret: ItemType) -> Result<Kernel, CreateError> {
    match (input, ret) {
        (ItemType::Float32, ItemType::Float64) => Ok(Kernel::F32ToF64),
        (ItemType::Float64, ItemType::Float64) => Ok(Kernel::F64ToF64),
        (ItemType::Float32, t) => Err(CreateError::UnsupportedReturn(t)),
        (ItemType::Float64, t) => Err(CreateError::UnsupportedReturn(t)),
        (t, _) => Err(CreateError::UnsupportedInput(t)),
    }
}

/// Picks the precision pairing for the declared item types: 32- or 64-bit
/// float items in, 64-bit float scores out; anything else is refused.
pub fn select_kernel(input: ItemType, ret: ItemType) -> (r: Result<Kernel, CreateError>)
    ensures
        r == kernel_for(input, ret),
{
    match (input, ret) {
        (ItemType::Float32, ItemType::Float64) => Ok(Kernel::F32ToF64),
        (ItemType::Float64, ItemType::Float64) => Ok(Kernel::F64ToF64),
        (ItemType::Float32, t) => Err(CreateError::UnsupportedReturn(t)),
        (ItemType::Float64, t) => Err(CreateError::UnsupportedReturn(t)),
        (t, _) => Err(CreateError::UnsupportedInput(t)),
    }
}

/// The model file of a function named `name` whose body is empty.
pub open spec fn default_model_file(name: Seq<char>) -> Seq<char> {
    "model/"@ + name + ".lgbm"@
}

/// The model file that a function's body names, or that its name implies.
pub fn model_file(name: &str, body: Option<FunctionBody>) -> (r: Result<String, CreateError>)
    ensures
        body is None ==> (r matches Ok(f) && f@ == default_model_file(name@)),
        body matches Some(FunctionBody::Literal(s)) ==> (r matches Ok(f) && f@ == s@),
        body matches Some(FunctionBody::Expression(e)) ==> r == Err::<String, CreateError>(
            CreateError::UnsupportedExpression(e),
        ),
{
    match body {
        Some(FunctionBody::Literal(s)) => Ok(s),
        Some(FunctionBody::Expression(e)) => Err(CreateError::UnsupportedExpression(e)),
        None => Ok(String::from_str("model/").concat(name).concat(".lgbm")),
    }
}

/// Creates model functions from `CREATE FUNCTION` statements.
#[derive(Debug, Default)]
pub struct LightfusionFunctionFactory {}

/// The item type that the arguments declare: that of the first argument,
/// a 64-bit float where there is none.
pub open spec fn declared_input(args: Option<Seq<DataKind>>) -> ItemType {
    match args {
        Some(a) => if a.len() > 0 {
            item_type_of(a[0])
        } else {
            ItemType::Float64
        },
        None => ItemType::Float64,
    }
}

/// The item type of the scores: the declared one, else that of the input.
pub open spec fn declared_return(input: ItemType, ret: Option<DataKind>) -> ItemType {
    match ret {
        Some(d) => item_type_of(d),
        None => input,
    }
}

impl LightfusionFunctionFactory {
    /// Decides what a `CREATE FUNCTION` statement makes: the model file, the
    /// batch size of the session, and the precision pairing.
    pub fn plan(
        &self,
        name: String,
        args: Option<Vec<DataKind>>,
        return_type: Option<DataKind>,
        body: Option<FunctionBody>,
        config: &LightfusionConfig,
    ) -> (r: Result<FunctionPlan, CreateError>)
        ensures
            ({
                let input = declared_input(
                    match args {
                        Some(a) => Some(a@),
                        None => None,
                    },
                );
                let ret = declared_return(input, return_type);
                match body {
                    Some(FunctionBody::Expression(e)) => r == Err::<FunctionPlan, CreateError>(
                        CreateError::UnsupportedExpression(e),
                    ),
                    _ => match kernel_for(input, ret) {
                        Err(e) => r == Err::<FunctionPlan, CreateError>(e),
                        Ok(k) => r matches Ok(p) && p.kernel == k && p.name@ == name@
                            && p.batch_size == config.size() && p.model_file@ == match body {
                            Some(FunctionBody::Literal(s)) => s@,
                            _ => default_model_file(name@),
                        },
                    },
                }
            }),
    {
        let arg_type = match args {
            Some(a) => if a.len() > 0 {
                a[0]
            } else {
                DataKind::Item(ItemType::Float64)
            },
            None => DataKind::Item(ItemType::Float64),
        };
        let input = find_item_type(arg_type);
        let ret = match return_type {
            Some(t) => find_item_type(t),
            None => input,
        };
        let model_file = model_file(name.as_str(), body)?;
        let kernel = select_kernel(input, ret)?;
        Ok(FunctionPlan { name, model_file, batch_size: config.batch_size(), kernel })
    }
}

} // verus!
