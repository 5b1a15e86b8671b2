//! Convolution layers in exact arithmetic: sums over taps and channels.
use vstd::prelude::*;

use crate::config::{layer_reads, same_padding, RESBLOCK_DILATIONS};
use crate::element::{element, element_of, unstretched, Element};
use crate::layers::{Conv1d, ConvTranspose1d};
use crate::numbers::{added, Numbers};
use crate::shape::{conv_length, conv_shape, kernel_span, transposed_shape};
use crate::signal::{is_signal, lemma_with_bias};
use crate::tensor::{conv, conv_transpose, plus, BinaryOp, Outcome};
use crate::text::decimal;
use crate::weights::{stored, ArrayRef, Entries};

verus! {

impl Numbers {
    /// The bias of output channel `o`: none where there is no bias.
    pub open spec fn bias(self, bias: Option<ArrayRef>, o: int) -> real {
        match bias {
            Some(b) => self.at(b.tensor(), seq![o]),
            None => 0 as real,
        }
    }

    /// Adding a bias for each channel.
    pub proof fn lemma_bias(self, y: Outcome, b: ArrayRef, i: Seq<int>)
        requires
            y is Ok,
            y->Ok_0.shape.len() == 3,
            b.shape@ == seq![y->Ok_0.shape[2]],
            i.len() == 3,
            0 <= i[0] < y->Ok_0.shape[0],
            0 <= i[1] < y->Ok_0.shape[1],
            0 <= i[2] < y->Ok_0.shape[2],
        ensures
            self.of(plus(y, b.outcome()), i) == self.of(y, i) + self.at(b.tensor(), seq![i[2]]),
    {
        lemma_with_bias(BinaryOp::Add, y, b.outcome());
        assert(unstretched(y->Ok_0.shape, i) =~= i);
        assert(unstretched(b.shape@, i) =~= seq![i[2]]);
        self.lemma_binary_value(
            BinaryOp::Add,
            element_of(y, i),
            element(b.tensor(), seq![i[2]]),
        );
    }
}

impl Conv1d {
    /// The layer on a signal of `length` steps, by the numbers in it: at step `t`, in output
    /// channel `o` of row `b`.
    pub open spec fn convolved(
        self,
        numbers: Numbers,
        x: spec_fn(int, int, int) -> real,
        length: int,
        b: int,
        t: int,
        o: int,
    ) -> real {
        added(
            Seq::new(
                self.kernel_size as nat,
                |tap: int|
                    {
                        let p = t + tap * self.dilation - self.padding;
                        if 0 <= p < length {
                            added(
                                Seq::new(
                                    self.input_channels as nat,
                                    |c: int|
                                        x(b, p, c) * numbers.at(
                                            self.weight.tensor(),
                                            seq![o, tap, c],
                                        ),
                                ),
                            )
                        } else {
                            0 as real
                        }
                    },
            ),
        ) + numbers.bias(self.bias, o)
    }

    /// The layer makes what [`Conv1d::convolved`] says of the numbers in its input.
    pub proof fn lemma_convolved(
        self,
        numbers: Numbers,
        x: Outcome,
        y: spec_fn(int, int, int) -> real,
        batch: int,
        length: int,
        b: int,
        t: int,
        o: int,
    )
        requires
            self.conforms(),
            self.keeps_length(),
            0 <= self.input_channels,
            is_signal(x, batch, length, self.input_channels as int),
            forall|p: int, c: int|
                0 <= p < length && 0 <= c < self.input_channels ==> #[trigger] y(b, p, c)
                    == numbers.of(x, seq![b, p, c]),
            0 <= b < batch,
            0 <= t < length,
            0 <= o < self.output_channels,
        ensures
            numbers.of(self.apply(x), seq![b, t, o]) == self.convolved(
                numbers,
                y,
                length,
                b,
                t,
                o,
            ),
    {
        reveal(conv_shape);
        let w = self.weight.outcome();
        let (padding, dilation) = (self.padding as int, self.dilation as int);
        let out = conv(x, w, 1, padding, dilation);
        assert(kernel_span(self.kernel_size as int, dilation) == 2 * padding + 1);
        assert(conv_length(length, self.kernel_size as int, 1, padding, dilation) == length);
        assert(out is Ok);
        let at = seq![b, t, o];
        let taps = Seq::new(
            self.kernel_size as nat,
            |tap: int|
                {
                    let p = t + tap * self.dilation - self.padding;
                    if 0 <= p < length {
                        added(
                            Seq::new(
                                self.input_channels as nat,
                                |c: int|
                                    y(b, p, c) * numbers.at(
                                        self.weight.tensor(),
                                        seq![o, tap, c],
                                    ),
                            ),
                        )
                    } else {
                        0 as real
                    }
                },
        );
        let terms = element_of(out, at)->Sum_0;
        assert(element_of(out, at) == Element::Sum(terms));
        numbers.lemma_ends_of_expressions();
        assert forall|tap: int| 0 <= tap < terms.len() implies numbers.value(#[trigger] terms[tap])
            == taps[tap] by {
            let p = t + tap * dilation - padding;
            assert(t * 1 + tap * dilation - padding == p);
            if 0 <= p < length {
                let pairs = terms[tap]->Dot_0;
                assert(terms[tap] == Element::Dot(pairs));
                let xs = Seq::new(
                    self.input_channels as nat,
                    |c: int| y(b, p, c) * numbers.at(self.weight.tensor(), seq![o, tap, c]),
                );
                assert forall|c: int| 0 <= c < pairs.len() implies xs[c] == numbers.value(
                    (#[trigger] pairs[c]).0,
                ) * numbers.value(pairs[c].1) by {
                    assert(y(b, p, c) == numbers.of(x, seq![b, p, c]));
                }
                numbers.lemma_products_value(pairs, xs);
                assert(taps[tap] == added(xs));
            } else {
                assert(terms[tap] == Element::Zero);
            }
        }
        numbers.lemma_added_value(terms, taps);
        match self.bias {
            Some(bias) => {
                assert(bias.shape@ =~= seq![out->Ok_0.shape[2]]);
                numbers.lemma_bias(out, bias, at);
            },
            None => {},
        }
        assert(self.convolved(numbers, y, length, b, t, o) == added(taps) + numbers.bias(
            self.bias,
            o,
        ));
    }

    /// A convolution layer sums over its taps, which lie its dilation apart around each step,
    /// and over the channels; nothing comes from before the start and behind the end.
    pub proof fn lemma_conv_value(
        self,
        numbers: Numbers,
        x: Outcome,
        batch: int,
        length: int,
        b: int,
        t: int,
        o: int,
    )
        requires
            self.conforms(),
            self.keeps_length(),
            0 <= self.input_channels,
            is_signal(x, batch, length, self.input_channels as int),
            0 <= b < batch,
            0 <= t < length,
            0 <= o < self.output_channels,
        ensures
            numbers.of(self.apply(x), seq![b, t, o]) == added(
                Seq::new(
                    self.kernel_size as nat,
                    |tap: int|
                        {
                            let p = t + (tap * 2 - (self.kernel_size - 1)) * self.dilation / 2;
                            if 0 <= p < length {
                                added(
                                    Seq::new(
                                        self.input_channels as nat,
                                        |c: int|
                                            numbers.of(x, seq![b, p, c]) * numbers.at(
                                                self.weight.tensor(),
                                                seq![o, tap, c],
                                            ),
                                    ),
                                )
                            } else {
                                0 as real
                            }
                        },
                ),
            ) + (match self.bias {
                Some(bias) => numbers.at(bias.tensor(), seq![o]),
                None => 0 as real,
            }),
    {
        let y = |b1: int, p: int, c: int| numbers.of(x, seq![b1, p, c]);
        self.lemma_convolved(numbers, x, y, batch, length, b, t, o);
        let left = Seq::new(
            self.kernel_size as nat,
            |tap: int|
                {
                    let p = t + tap * self.dilation - self.padding;
                    if 0 <= p < length {
                        added(
                            Seq::new(
                                self.input_channels as nat,
                                |c: int|
                                    y(b, p, c) * numbers.at(
                                        self.weight.tensor(),
                                        seq![o, tap, c],
                                    ),
                            ),
                        )
                    } else {
                        0 as real
                    }
                },
        );
        let right = Seq::new(
            self.kernel_size as nat,
            |tap: int|
                {
                    let p = t + (tap * 2 - (self.kernel_size - 1)) * self.dilation / 2;
                    if 0 <= p < length {
                        added(
                            Seq::new(
                                self.input_channels as nat,
                                |c: int|
                                    numbers.of(x, seq![b, p, c]) * numbers.at(
                                        self.weight.tensor(),
                                        seq![o, tap, c],
                                    ),
                            ),
                        )
                    } else {
                        0 as real
                    }
                },
        );
        assert forall|tap: int| 0 <= tap < self.kernel_size implies left[tap] == right[tap] by {
            let (k, d, q) = (self.kernel_size as int, self.dilation as int, self.padding as int);
            assert((tap * 2 - (k - 1)) * d == 2 * (tap * d - q)) by (nonlinear_arith)
                requires
                    2 * q == d * (k - 1),
            ;
            let p = t + tap * d - q;
            if 0 <= p < length {
                assert(Seq::new(
                    self.input_channels as nat,
                    |c: int| y(b, p, c) * numbers.at(self.weight.tensor(), seq![o, tap, c]),
                ) =~= Seq::new(
                    self.input_channels as nat,
                    |c: int|
                        numbers.of(x, seq![b, p, c]) * numbers.at(
                            self.weight.tensor(),
                            seq![o, tap, c],
                        ),
                ));
            }
        }
        assert(left =~= right);
    }
}

impl ConvTranspose1d {
    /// The layer on a signal of `length` steps, by the numbers in it: at step `t`, in output
    /// channel `o` of row `b`.
    pub open spec fn convolved(
        self,
        numbers: Numbers,
        x: spec_fn(int, int, int) -> real,
        length: int,
        b: int,
        t: int,
        o: int,
    ) -> real {
        added(
            Seq::new(
                self.kernel_size as nat,
                |tap: int|
                    {
                        let p = t + self.padding - tap;
                        if p % (self.stride as int) == 0 && 0 <= p / (self.stride as int) < length {
                            added(
                                Seq::new(
                                    self.input_channels as nat,
                                    |c: int|
                                        x(b, p / (self.stride as int), c) * numbers.at(
                                            self.weight.tensor(),
                                            seq![o, tap, c],
                                        ),
                                ),
                            )
                        } else {
                            0 as real
                        }
                    },
            ),
        ) + numbers.bias(self.bias, o)
    }

    /// The layer makes what [`ConvTranspose1d::convolved`] says of the numbers in its input.
    pub proof fn lemma_convolved(
        self,
        numbers: Numbers,
        x: Outcome,
        y: spec_fn(int, int, int) -> real,
        batch: int,
        length: int,
        b: int,
        t: int,
        o: int,
    )
        requires
            self.conforms(),
            self.multiplies_length(),
            0 <= self.input_channels,
            1 <= length,
            length * self.stride <= i32::MAX,
            is_signal(x, batch, length, self.input_channels as int),
            forall|p: int, c: int|
                0 <= p < length && 0 <= c < self.input_channels ==> #[trigger] y(b, p, c)
                    == numbers.of(x, seq![b, p, c]),
            0 <= b < batch,
            0 <= t < length * self.stride,
            0 <= o < self.output_channels,
        ensures
            numbers.of(self.apply(x), seq![b, t, o]) == self.convolved(
                numbers,
                y,
                length,
                b,
                t,
                o,
            ),
    {
        reveal(transposed_shape);
        let w = self.weight.outcome();
        let (padding, stride) = (self.padding as int, self.stride as int);
        let out = conv_transpose(x, w, stride, padding);
        assert((length - 1) * stride + stride == length * stride) by (nonlinear_arith);
        assert(out is Ok);
        let at = seq![b, t, o];
        let taps = Seq::new(
            self.kernel_size as nat,
            |tap: int|
                {
                    let p = t + self.padding - tap;
                    if p % (self.stride as int) == 0 && 0 <= p / (self.stride as int) < length {
                        added(
                            Seq::new(
                                self.input_channels as nat,
                                |c: int|
                                    y(b, p / (self.stride as int), c) * numbers.at(
                                        self.weight.tensor(),
                                        seq![o, tap, c],
                                    ),
                            ),
                        )
                    } else {
                        0 as real
                    }
                },
        );
        let terms = element_of(out, at)->Sum_0;
        assert(element_of(out, at) == Element::Sum(terms));
        numbers.lemma_ends_of_expressions();
        assert forall|tap: int| 0 <= tap < terms.len() implies numbers.value(#[trigger] terms[tap])
            == taps[tap] by {
            let p = t + padding - tap;
            if p % stride == 0 && 0 <= p / stride < length {
                let pairs = terms[tap]->Dot_0;
                assert(terms[tap] == Element::Dot(pairs));
                let xs = Seq::new(
                    self.input_channels as nat,
                    |c: int|
                        y(b, p / (self.stride as int), c) * numbers.at(
                            self.weight.tensor(),
                            seq![o, tap, c],
                        ),
                );
                assert forall|c: int| 0 <= c < pairs.len() implies xs[c] == numbers.value(
                    (#[trigger] pairs[c]).0,
                ) * numbers.value(pairs[c].1) by {
                    assert(y(b, p / stride, c) == numbers.of(x, seq![b, p / stride, c]));
                }
                numbers.lemma_products_value(pairs, xs);
                assert(taps[tap] == added(xs));
            } else {
                assert(terms[tap] == Element::Zero);
            }
        }
        numbers.lemma_added_value(terms, taps);
        match self.bias {
            Some(bias) => {
                assert(bias.shape@ =~= seq![out->Ok_0.shape[2]]);
                numbers.lemma_bias(out, bias, at);
            },
            None => {},
        }
        assert(self.convolved(numbers, y, length, b, t, o) == added(taps) + numbers.bias(
            self.bias,
            o,
        ));
    }

    /// A transposed convolution layer spreads each step of its input over its taps, from the
    /// stride times the step on, less the padding: step `t` sums what falls on it.
    pub proof fn lemma_conv_value(
        self,
        numbers: Numbers,
        x: Outcome,
        batch: int,
        length: int,
        b: int,
        t: int,
        o: int,
    )
        requires
            self.conforms(),
            self.multiplies_length(),
            0 <= self.input_channels,
            1 <= length,
            length * self.stride <= i32::MAX,
            is_signal(x, batch, length, self.input_channels as int),
            0 <= b < batch,
            0 <= t < length * self.stride,
            0 <= o < self.output_channels,
        ensures
            numbers.of(self.apply(x), seq![b, t, o]) == added(
                Seq::new(
                    self.kernel_size as nat,
                    |tap: int|
                        {
                            let p = t + (self.kernel_size - self.stride) / 2 - tap;
                            if p % (self.stride as int) == 0 && 0 <= p / (self.stride as int)
                                < length {
                                added(
                                    Seq::new(
                                        self.input_channels as nat,
                                        |c: int|
                                            numbers.of(
                                                x,
                                                seq![b, p / (self.stride as int), c],
                                            ) * numbers.at(
                                                self.weight.tensor(),
                                                seq![o, tap, c],
                                            ),
                                    ),
                                )
                            } else {
                                0 as real
                            }
                        },
                ),
            ) + (match self.bias {
                Some(bias) => numbers.at(bias.tensor(), seq![o]),
                None => 0 as real,
            }),
    {
        let y = |b1: int, p: int, c: int| numbers.of(x, seq![b1, p, c]);
        self.lemma_convolved(numbers, x, y, batch, length, b, t, o);
        let left = Seq::new(
            self.kernel_size as nat,
            |tap: int|
                {
                    let p = t + self.padding - tap;
                    if p % (self.stride as int) == 0 && 0 <= p / (self.stride as int) < length {
                        added(
                            Seq::new(
                                self.input_channels as nat,
                                |c: int|
                                    y(b, p / (self.stride as int), c) * numbers.at(
                                        self.weight.tensor(),
                                        seq![o, tap, c],
                                    ),
                            ),
                        )
                    } else {
                        0 as real
                    }
                },
        );
        let right = Seq::new(
            self.kernel_size as nat,
            |tap: int|
                {
                    let p = t + (self.kernel_size - self.stride) / 2 - tap;
                    if p % (self.stride as int) == 0 && 0 <= p / (self.stride as int) < length {
                        added(
                            Seq::new(
                                self.input_channels as nat,
                                |c: int|
                                    numbers.of(x, seq![b, p / (self.stride as int), c])
                                        * numbers.at(self.weight.tensor(), seq![o, tap, c]),
                            ),
                        )
                    } else {
                        0 as real
                    }
                },
        );
        assert forall|tap: int| 0 <= tap < self.kernel_size implies left[tap] == right[tap] by {
            let p = t + self.padding - tap;
            if p % (self.stride as int) == 0 && 0 <= p / (self.stride as int) < length {
                assert(Seq::new(
                    self.input_channels as nat,
                    |c: int|
                        y(b, p / (self.stride as int), c) * numbers.at(
                            self.weight.tensor(),
                            seq![o, tap, c],
                        ),
                ) =~= Seq::new(
                    self.input_channels as nat,
                    |c: int|
                        numbers.of(x, seq![b, p / (self.stride as int), c]) * numbers.at(
                            self.weight.tensor(),
                            seq![o, tap, c],
                        ),
                ));
            }
        }
        assert(left =~= right);
    }
}

/// A bias is the array that is stored under a name, or missing where none is.
pub open spec fn is_optional(a: Option<ArrayRef>, entries: Entries, name: Seq<char>) -> bool {
    match a {
        Some(b) => stored(entries, name) == Some(b.tensor()),
        None => stored(entries, name) is None,
    }
}

impl Conv1d {
    /// The layer has the arrays of its name, and these numbers. Its taps lie around the middle.
    pub open spec fn is_layer(
        self,
        entries: Entries,
        name: Seq<char>,
        inputs: int,
        outputs: int,
        taps: int,
        dilation: int,
    ) -> bool {
        &&& stored(entries, name + ".weight"@) == Some(self.weight.tensor())
        &&& is_optional(self.bias, entries, name + ".bias"@)
        &&& self.input_channels == inputs
        &&& self.output_channels == outputs
        &&& self.kernel_size == taps
        &&& self.dilation == dilation
        &&& 2 * self.padding == dilation * (taps - 1)
    }
}

impl ConvTranspose1d {
    /// The layer has the arrays of its name, and these numbers. It lengthens by its stride.
    pub open spec fn is_layer(
        self,
        entries: Entries,
        name: Seq<char>,
        inputs: int,
        outputs: int,
        taps: int,
        stride: int,
    ) -> bool {
        &&& stored(entries, name + ".weight"@) == Some(self.weight.tensor())
        &&& is_optional(self.bias, entries, name + ".bias"@)
        &&& self.input_channels == inputs
        &&& self.output_channels == outputs
        &&& self.kernel_size == taps
        &&& self.stride == stride
        &&& 2 * self.padding == taps - stride
    }
}

/// The convolutions of layer `l` of residual block `index`.
pub proof fn lemma_layer_arrays(
    first: Conv1d,
    second: Conv1d,
    entries: Entries,
    index: nat,
    l: nat,
    channels: int,
    taps: int,
)
    requires
        l < 3,
        taps == 3 || taps == 7 || taps == 11,
        layer_reads(first, second, entries, index, l, channels, taps),
    ensures
        first.is_layer(
            entries,
            "resblocks."@ + decimal(index) + ".convs1."@ + decimal(l),
            channels,
            channels,
            taps,
            2 * (l as int) + 1,
        ),
        second.is_layer(
            entries,
            "resblocks."@ + decimal(index) + ".convs2."@ + decimal(l),
            channels,
            channels,
            taps,
            1,
        ),
{
    assert(l == 0 || l == 1 || l == 2);
    let d = RESBLOCK_DILATIONS@[l as int] as int;
    if d == 1 {
        assert(first.padding == same_padding(taps, 1));
    } else if d == 3 {
        assert(first.padding == same_padding(taps, 3));
    } else {
        assert(first.padding == same_padding(taps, 5));
    }
}

} // verus!
