"""Exhaustive cross-check of the exact luma model in src/luma.rs.

The library computes BT.601 luma without floating point: each binary64
weight (0.299, 0.587, 0.114) is an exact multiple of 2^-60, every product
and sum is rounded to 53 significant bits (round half to even), and the
result is rounded half away from zero and clamped to 255. This script
evaluates that model and the floating-point formula on all 2^24 RGB
triples and prints how many disagree (expected: 0). It takes a few minutes
under CPython.
"""
import math, struct
from fractions import Fraction
U=60
def units(c):
    f=Fraction(c)  # exact double value
    v=f*(1<<U)
    assert v.denominator==1
    return v.numerator
C1,C2,C3=units(0.299),units(0.587),units(0.114)
print("weights in 2^-60 units:", C1, C2, C3)
def rnd(v):
    k=v.bit_length()
    if k<=53: return v
    d=k-53; p=1<<d; q=v//p; r=v%p; h=p//2
    if r>h or (r==h and q%2==1): q+=1
    return q*p
def luma(r,g,b):
    x=rnd(rnd(rnd(C1*r)+rnd(C2*g))+rnd(C3*b))
    fl=x>>U; fr=x&((1<<U)-1)
    v=fl+1 if fr>=(1<<(U-1)) else fl
    return min(v,255)
bad=0
for r in range(256):
    a=0.299*float(r)
    for g in range(256):
        ab=a+0.587*float(g)
        for b in range(256):
            x=ab+0.114*float(b)
            fl=math.floor(x)
            v = fl+1 if x-fl>=0.5 else fl
            if v>255: v=255
            if v!=luma(r,g,b):
                bad+=1
                if bad<10: print(r,g,b,v,luma(r,g,b))
print("bad",bad)
